//! The texts that show a world: its generation, and its message in lines.

use vstd::prelude::*;
use vstd::string::*;

verus! {

/// `String::push`.
///
/// Trusted: the character is appended to the end of the string.
pub assume_specification[ String::push ](s: &mut String, c: char)
    ensures
        final(s)@ == old(s)@.push(c),
;

/// Characters in a line of a short message.
pub const SHORT_LINE: usize = 20;

/// Characters in a line of a long message.
pub const LONG_LINE: usize = 40;

/// A message is long where it has more bytes than this.
pub const LONG_MESSAGE_BYTES: usize = 40;

/// The decimal digits of a number; none for zero.
pub open spec fn digits(n: nat) -> Seq<char>
    decreases n,
{
    if n == 0 {
        Seq::empty()
    } else {
        digits(n / 10).push(digit(n % 10))
    }
}

/// A decimal digit.
pub open spec fn digit(d: nat) -> char {
    ('0' as int + d) as char
}

/// A number in decimal.
pub open spec fn decimal(n: nat) -> Seq<char> {
    if n == 0 {
        seq!['0']
    } else {
        digits(n)
    }
}

/// Appends the decimal digits of a number; none for zero.
fn push_digits(out: &mut String, n: u64)
    ensures
        final(out)@ == old(out)@ + digits(n as nat),
    decreases n,
{
    if n != 0 {
        let ghost before = out@;
        push_digits(out, n / 10);
        out.push((48u8 + (n % 10) as u8) as char);
        assert(out@ =~= before + digits(n as nat));
    } else {
        assert(out@ =~= out@ + digits(0));
    }
}

/// The text that shows a generation.
pub fn generation_label(generation: u64) -> (label: String)
    ensures
        label@ == seq!['G', 'e', 'n', ' '] + decimal(generation as nat),
{
    let mut label = String::new();
    label.push('G');
    label.push('e');
    label.push('n');
    label.push(' ');
    assert(label@ =~= seq!['G', 'e', 'n', ' ']);
    if generation == 0 {
        label.push('0');
        assert(label@ =~= seq!['G', 'e', 'n', ' '] + seq!['0']);
    } else {
        push_digits(&mut label, generation);
    }
    label
}

/// How many places the label's number is given: two more than it has digits,
/// where zero has none.
pub fn generation_width(generation: u64) -> (width: u32)
    ensures
        width == 2 + digits(generation as nat).len(),
{
    let mut g: u64 = generation;
    let mut n: u32 = 2;
    proof {
        digits_are_few(generation as nat, 20);
    }
    while g != 0
        invariant
            n + digits(g as nat).len() == 2 + digits(generation as nat).len(),
            digits(generation as nat).len() <= 20,
        decreases g,
    {
        n += 1;
        g = g / 10;
    }
    n
}

/// Ten to a power.
pub open spec fn ten_to(k: nat) -> nat
    decreases k,
{
    if k == 0 {
        1
    } else {
        10 * ten_to((k - 1) as nat)
    }
}

proof fn digits_are_few(n: nat, k: nat)
    requires
        k <= 20,
        n < ten_to(k) || (k == 20 && n <= u64::MAX),
    ensures
        digits(n).len() <= k,
    decreases n,
{
    if n != 0 {
        reveal_with_fuel(ten_to, 21);
        assert(ten_to(20) == 100_000_000_000_000_000_000);
        assert(n < ten_to(k));
        digits_are_few(n / 10, (k - 1) as nat);
    }
}

/// The lines of a text: each as long as given, but for the last.
pub open spec fn lines_of(text: Seq<char>, width: nat) -> Seq<Seq<char>>
    decreases text.len(),
{
    if text.len() == 0 || width == 0 {
        Seq::empty()
    } else if text.len() <= width {
        seq![text]
    } else {
        seq![text.subrange(0, width as int)] + lines_of(
            text.subrange(width as int, text.len() as int),
            width,
        )
    }
}

/// The characters of all lines, one after the other.
pub open spec fn joined(lines: Seq<Seq<char>>) -> Seq<char>
    decreases lines.len(),
{
    if lines.len() == 0 {
        Seq::empty()
    } else {
        lines[0] + joined(lines.drop_first())
    }
}

/// Breaking a text into lines loses nothing, and no line is empty or too
/// long.
pub proof fn lines_make_up_the_text(text: Seq<char>, width: nat)
    requires
        width > 0,
    ensures
        joined(lines_of(text, width)) == text,
        forall|i: int|
            0 <= i < lines_of(text, width).len() ==> 0 < (#[trigger] lines_of(text, width)[i]).len()
                <= width,
    decreases text.len(),
{
    let lines = lines_of(text, width);
    if text.len() == 0 {
    } else if text.len() <= width {
        assert(lines.drop_first() =~= Seq::<Seq<char>>::empty());
        assert(joined(Seq::<Seq<char>>::empty()) =~= Seq::<char>::empty());
        assert(joined(lines) =~= text);
    } else {
        let rest = text.subrange(width as int, text.len() as int);
        lines_make_up_the_text(rest, width);
        assert(lines.drop_first() =~= lines_of(rest, width));
        assert(joined(lines) =~= text);
        assert forall|i: int| 0 <= i < lines.len() implies 0 < (#[trigger] lines[i]).len()
            <= width by {
            if i > 0 {
                assert(lines[i] == lines_of(rest, width)[i - 1]);
            }
        }
    }
}

/// Breaks a text into lines of the given length.
pub fn break_lines(text: &str, width: usize) -> (lines: Vec<String>)
    requires
        width > 0,
    ensures
        lines@.len() == lines_of(text@, width as nat).len(),
        forall|i: int|
            0 <= i < lines@.len() ==> (#[trigger] lines@[i])@ == lines_of(text@, width as nat)[i],
{
    let len: usize = text.unicode_len();
    let ghost all = lines_of(text@, width as nat);
    let mut lines: Vec<String> = Vec::new();
    let mut at: usize = 0;
    assert(text@.subrange(0, text@.len() as int) =~= text@);
    while at < len
        invariant
            at <= len == text@.len(),
            width > 0,
            all == lines_of(text@, width as nat),
            lines@.len() + lines_of(text@.subrange(at as int, len as int), width as nat).len()
                == all.len(),
            forall|i: int| 0 <= i < lines@.len() ==> (#[trigger] lines@[i])@ == all[i],
            forall|i: int|
                0 <= i < lines_of(text@.subrange(at as int, len as int), width as nat).len()
                    ==> #[trigger] lines_of(text@.subrange(at as int, len as int), width as nat)[i]
                    == all[lines@.len() + i],
        decreases len - at,
    {
        let ghost rest = text@.subrange(at as int, len as int);
        let ghost rest_lines = lines_of(rest, width as nat);
        let ghost start = at;
        let stop: usize = if len - at <= width {
            len
        } else {
            at + width
        };
        let mut line = String::new();
        while at < stop
            invariant
                start <= at <= stop <= len == text@.len(),
                line@ == text@.subrange(start as int, at as int),
            decreases stop - at,
        {
            line.push(text.get_char(at));
            at += 1;
            assert(line@ =~= text@.subrange(start as int, at as int));
        }
        assert(line@ =~= rest_lines[0]) by {
            assert(rest.subrange(0, rest.len() as int) =~= rest);
        }
        lines.push(line);
        proof {
            let after = text@.subrange(at as int, len as int);
            if rest.len() <= width {
                assert(after =~= Seq::<char>::empty());
            } else {
                assert(after =~= rest.subrange(width as int, rest.len() as int));
            }
            assert forall|i: int|
                0 <= i < lines_of(after, width as nat).len() implies #[trigger] lines_of(
                after,
                width as nat,
            )[i] == all[lines@.len() + i] by {
                assert(lines_of(after, width as nat)[i] == rest_lines[i + 1]);
            }
        }
    }
    lines
}

/// What is written on top of a world.
pub struct WorldTexts {
    /// The generation's label.
    pub label: String,
    /// How many places the label's number is given.
    pub label_width: u32,
    /// The message, in lines.
    pub lines: Vec<String>,
    /// Whether the message is long, and so written smaller.
    pub small: bool,
}

/// Lays out the texts of a world. A long message has longer lines of smaller
/// letters.
pub fn world_texts(generation: u64, message: Option<&str>) -> (texts: WorldTexts)
    ensures
        texts.label@ == seq!['G', 'e', 'n', ' '] + decimal(generation as nat),
        texts.label_width == 2 + digits(generation as nat).len(),
        match message {
            None => !texts.small && texts.lines@ == Seq::<String>::empty(),
            Some(m) => {
                let long = m.spec_bytes().len() as usize > 40;
                let lines = lines_of(
                    m@,
                    if long {
                        40
                    } else {
                        20
                    },
                );
                &&& texts.small == long
                &&& texts.lines@.len() == lines.len()
                &&& forall|i: int|
                    0 <= i < lines.len() ==> (#[trigger] texts.lines@[i])@ == lines[i]
            },
        },
{
    let label = generation_label(generation);
    let label_width: u32 = generation_width(generation);
    match message {
        None => WorldTexts { label, label_width, lines: Vec::new(), small: false },
        Some(m) => {
            let small = m.len() > LONG_MESSAGE_BYTES;
            let lines = break_lines(
                m,
                if small {
                    LONG_LINE
                } else {
                    SHORT_LINE
                },
            );
            WorldTexts { label, label_width, lines, small }
        },
    }
}

/// A number's decimal form reads back as the number, digit by digit from the
/// front; all of it is digits, and it does not start with a zero unless it is
/// one.
pub proof fn decimals_read_back(n: nat)
    ensures
        decimal(n).fold_left(0, |v: int, c: char| 10 * v + (c as int - 48)) == n,
        decimal(n).len() >= 1,
        forall|i: int| 0 <= i < decimal(n).len() ==> 48 <= (#[trigger] decimal(n)[i]) as int <= 57,
        decimal(n)[0] == '0' <==> n == 0,
{
    let read = |v: int, c: char| 10 * v + (c as int - 48);
    if n == 0 {
        let zero = seq!['0'];
        assert(zero.drop_last() =~= Seq::<char>::empty());
        reveal_with_fuel(Seq::fold_left, 2);
        assert(decimal(n).last() == '0');
    } else {
        digits_read_back(n);
    }
}

proof fn digits_read_back(n: nat)
    ensures
        digits(n).fold_left(0, |v: int, c: char| 10 * v + (c as int - 48)) == n,
        forall|i: int| 0 <= i < digits(n).len() ==> 48 <= (#[trigger] digits(n)[i]) as int <= 57,
        n > 0 ==> digits(n).len() >= 1 && digits(n)[0] != '0',
    decreases n,
{
    if n > 0 {
        digits_read_back(n / 10);
        let front = digits(n / 10);
        assert(digits(n) == front.push(digit(n % 10)));
        assert(digits(n).drop_last() =~= front);
        assert(digits(n).last() == digit(n % 10));
        assert(digit(n % 10) as int == 48 + n % 10);
        if n / 10 == 0 {
            assert(front.len() == 0);
            assert(n % 10 != 0);
        }
    }
}

/// The places of a label's number: two more than the number has digits, and
/// two for zero. A number has one digit more than a tenth of it.
pub proof fn digits_grow_by_tens(n: nat)
    ensures
        digits(0).len() == 0,
        n > 0 ==> digits(n).len() == digits(n / 10).len() + 1,
        n > 0 ==> digits(n) == decimal(n),
{
}

/// Line by line, a text is cut at every multiple of the width: line `i` is what
/// stands there, as long as given unless the text ends before.
pub proof fn lines_are_cut_at_the_width(text: Seq<char>, width: nat, i: int)
    requires
        width > 0,
        0 <= i < lines_of(text, width).len(),
    ensures
        i * width < text.len(),
        lines_of(text, width)[i] == text.subrange(
            i * width,
            if (i + 1) * width <= text.len() {
                (i + 1) * width
            } else {
                text.len() as int
            },
        ),
        i == lines_of(text, width).len() - 1 <==> (i + 1) * width >= text.len(),
    decreases text.len(),
{
    let lines = lines_of(text, width);
    if text.len() <= width {
        assert(i == 0);
        assert(text.subrange(0, text.len() as int) =~= text);
        assert(i * width == 0 && (i + 1) * width == width) by (nonlinear_arith)
            requires
                i == 0,
        ;
    } else {
        let rest = text.subrange(width as int, text.len() as int);
        lines_make_up_the_text(rest, width);
        assert(lines_of(rest, width).len() > 0);
        assert(lines.len() == 1 + lines_of(rest, width).len());
        if i == 0 {
            assert(i * width == 0 && (i + 1) * width == width) by (nonlinear_arith)
                requires
                    i == 0,
            ;
        } else {
            lines_are_cut_at_the_width(rest, width, i - 1);
            assert(lines[i] == lines_of(rest, width)[i - 1]);
            assert(i * width == (i - 1) * width + width) by (nonlinear_arith);
            assert((i + 1) * width == i * width + width) by (nonlinear_arith);
            assert((i - 1 + 1) * width == i * width);
        }
    }
}

/// All lines together, in order, are the text, whatever its length; a text has
/// a line unless it is empty.
pub proof fn no_character_is_lost_to_a_line(text: Seq<char>, width: nat)
    requires
        width > 0,
    ensures
        lines_of(text, width).flatten() == text,
        lines_of(text, width).len() == 0 <==> text.len() == 0,
    decreases text.len(),
{
    let lines = lines_of(text, width);
    if text.len() > width {
        let rest = text.subrange(width as int, text.len() as int);
        no_character_is_lost_to_a_line(rest, width);
        assert(lines.drop_first() =~= lines_of(rest, width));
        assert(lines.first() + rest =~= text);
    } else if text.len() > 0 {
        assert(lines.drop_first() =~= Seq::<Seq<char>>::empty());
        reveal_with_fuel(Seq::flatten, 2);
        assert(lines.first() + Seq::<char>::empty() =~= text);
    }
}

} // verus!
