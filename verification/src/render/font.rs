//! The font atlas: which cell of the texture shows which character, and which
//! characters of a text are drawn together.

use vstd::prelude::*;

verus! {

/// Cells of the atlas.
pub const GLYPH_COUNT: usize = 63;

/// Columns of the atlas; it has three rows.
pub const ATLAS_COLUMNS: u32 = 21;

/// The cell of a character: A to Z, a to z, 0 to 9, then one blank cell for
/// all others.
pub open spec fn glyph_of(c: char) -> int {
    if 'A' <= c <= 'Z' {
        c as int - 'A' as int
    } else if 'a' <= c <= 'z' {
        26 + (c as int - 'a' as int)
    } else if '0' <= c <= '9' {
        52 + (c as int - '0' as int)
    } else {
        62
    }
}

/// The character that a cell shows.
pub open spec fn char_of(glyph: int) -> char {
    if 0 <= glyph < 26 {
        ('A' as int + glyph) as char
    } else if 26 <= glyph < 52 {
        ('a' as int + (glyph - 26)) as char
    } else if 52 <= glyph < 62 {
        ('0' as int + (glyph - 52)) as char
    } else {
        ' '
    }
}

/// Every character has a cell, every cell shows a character of its own, and a
/// character that the atlas knows is shown by its cell.
pub proof fn glyphs_and_chars_match(c: char, glyph: int)
    ensures
        0 <= glyph_of(c) < GLYPH_COUNT,
        0 <= glyph < GLYPH_COUNT ==> glyph_of(char_of(glyph)) == glyph,
        char_of(glyph_of(c)) == (if glyph_of(c) < 62 {
            c
        } else {
            ' '
        }),
{
}

/// The atlas, and the mesh of each glyph that has been drawn.
pub struct FontAtlas {
    pub letters_cache: Vec<Option<usize>>,
    pub texture: String,
}

impl FontAtlas {
    /// There is a place for every glyph's mesh.
    pub open spec fn wf(self) -> bool {
        self.letters_cache@.len() == GLYPH_COUNT
    }

    /// An atlas of which nothing has been drawn.
    pub fn new() -> (a: Self)
        ensures
            a.wf(),
            a.letters_cache@ == Seq::new(GLYPH_COUNT as nat, |i: int| None::<usize>),
            a.texture@ == "resources/font_atlas.png"@,
    {
        let mut letters_cache: Vec<Option<usize>> = Vec::new();
        let mut i: usize = 0;
        while i < GLYPH_COUNT
            invariant
                i <= GLYPH_COUNT,
                letters_cache@ == Seq::new(i as nat, |j: int| None::<usize>),
            decreases GLYPH_COUNT - i,
        {
            letters_cache.push(None);
            i += 1;
            assert(letters_cache@ =~= Seq::new(i as nat, |j: int| None::<usize>));
        }
        FontAtlas { letters_cache, texture: "resources/font_atlas.png".to_owned() }
    }

    /// The cell of a character.
    pub fn idx_for_char(&self, c: char) -> (idx: u32)
        ensures
            idx == glyph_of(c),
    {
        let code: u32 = c as u32;
        if 'A' <= c && c <= 'Z' {
            code - 65
        } else if 'a' <= c && c <= 'z' {
            26 + (code - 97)
        } else if '0' <= c && c <= '9' {
            52 + (code - 48)
        } else {
            62
        }
    }

    /// The character that a cell shows.
    pub fn char_for_idx(&self, c_idx: u32) -> (c: char)
        ensures
            c == char_of(c_idx as int),
    {
        if c_idx < 26 {
            (65u8 + c_idx as u8) as char
        } else if c_idx < 52 {
            (97u8 + (c_idx - 26) as u8) as char
        } else if c_idx < 62 {
            (48u8 + (c_idx - 52) as u8) as char
        } else {
            ' '
        }
    }

    /// The row and the column of a character's cell.
    pub fn cell_for_char(&self, c: char) -> (cell: (u32, u32))
        ensures
            cell.0 == glyph_of(c) / 21,
            cell.1 == glyph_of(c) % 21,
            cell.0 < 3,
            cell.1 < ATLAS_COLUMNS,
    {
        let ordinal: u32 = self.idx_for_char(c);
        (ordinal / ATLAS_COLUMNS, ordinal % ATLAS_COLUMNS)
    }

    /// The mesh of a glyph. One that has not been drawn before gets the given
    /// mesh, and keeps it.
    pub fn mesh_by_ord(&mut self, ord: u32, fresh: usize) -> (mesh: usize)
        requires
            old(self).wf(),
            ord < GLYPH_COUNT,
        ensures
            final(self).wf(),
            final(self).texture == old(self).texture,
            final(self).letters_cache@ == old(self).letters_cache@.update(ord as int, Some(mesh)),
            mesh == (match old(self).letters_cache@[ord as int] {
                Some(m) => m,
                None => fresh,
            }),
    {
        let slot: usize = ord as usize;
        let ghost before = self.letters_cache@;
        match self.letters_cache[slot] {
            Some(m) => {
                assert(before.update(ord as int, Some(m)) =~= before);
                m
            },
            None => {
                self.letters_cache[slot] = Some(fresh);
                fresh
            },
        }
    }
}

/// Where a character stands: in which text, and how many places in.
pub type Placement = (usize, usize);

/// Where a glyph stands in the front of a text.
pub open spec fn placed_in_text(text: Seq<char>, index: usize, glyph: int) -> Seq<Placement>
    decreases text.len(),
{
    if text.len() == 0 {
        Seq::empty()
    } else {
        let init = placed_in_text(text.drop_last(), index, glyph);
        if glyph_of(text.last()) == glyph {
            init.push((index, (text.len() - 1) as usize))
        } else {
            init
        }
    }
}

/// Where a glyph stands in texts, in reading order.
pub open spec fn placed(texts: Seq<String>, glyph: int) -> Seq<Placement>
    decreases texts.len(),
{
    if texts.len() == 0 {
        Seq::empty()
    } else {
        placed(texts.drop_last(), glyph) + placed_in_text(
            texts.last()@,
            (texts.len() - 1) as usize,
            glyph,
        )
    }
}

/// One glyph, and everywhere it is drawn.
pub struct GlyphDraw {
    pub glyph: u32,
    pub placements: Vec<Placement>,
}

/// The draws of the glyphs below a bound: one per glyph that occurs.
pub open spec fn glyph_draws(texts: Seq<String>, bound: nat) -> Seq<(int, Seq<Placement>)>
    decreases bound,
{
    if bound == 0 {
        Seq::empty()
    } else {
        let init = glyph_draws(texts, (bound - 1) as nat);
        let here = placed(texts, bound - 1);
        if here.len() == 0 {
            init
        } else {
            init.push((bound - 1, here))
        }
    }
}

/// Adds the characters of one text to the buckets of their glyphs.
fn sort_text(buckets: &mut Vec<Vec<Placement>>, text: &String, index: usize, atlas: &FontAtlas)
    requires
        old(buckets)@.len() == GLYPH_COUNT,
    ensures
        final(buckets)@.len() == GLYPH_COUNT,
        forall|g: int|
            0 <= g < GLYPH_COUNT ==> (#[trigger] final(buckets)@[g])@ == old(buckets)@[g]@
                + placed_in_text(text@, index, g),
{
    let ghost before = buckets@;
    let len: usize = text.as_str().unicode_len();
    let mut i: usize = 0;
    proof {
        assert(text@.subrange(0, 0) =~= Seq::<char>::empty());
        assert forall|g: int| 0 <= g < GLYPH_COUNT implies (#[trigger] buckets@[g])@
            == before[g]@ + placed_in_text(text@.subrange(0, 0), index, g) by {
            assert(before[g]@ + Seq::<Placement>::empty() =~= before[g]@);
        }
    }
    while i < len
        invariant
            i <= len == text@.len(),
            before.len() == GLYPH_COUNT,
            buckets@.len() == GLYPH_COUNT,
            forall|g: int|
                0 <= g < GLYPH_COUNT ==> (#[trigger] buckets@[g])@ == before[g]@ + placed_in_text(
                    text@.subrange(0, i as int),
                    index,
                    g,
                ),
        decreases len - i,
    {
        let c = text.as_str().get_char(i);
        let slot: usize = atlas.idx_for_char(c) as usize;
        proof {
            glyphs_and_chars_match(c, 0);
            assert(text@.subrange(0, i + 1).drop_last() =~= text@.subrange(0, i as int));
        }
        let ghost here = buckets@;
        buckets[slot].push((index, i));
        i += 1;
        proof {
            assert forall|g: int| 0 <= g < GLYPH_COUNT implies (#[trigger] buckets@[g])@
                == before[g]@ + placed_in_text(text@.subrange(0, i as int), index, g) by {
                if g == slot {
                    assert(buckets@[g]@ =~= before[g]@ + placed_in_text(
                        text@.subrange(0, i as int),
                        index,
                        g,
                    ));
                } else {
                    assert(buckets@[g] == here[g]);
                }
            }
        }
    }
    assert(text@.subrange(0, len as int) =~= text@);
}

/// The draws of some texts: one per glyph that occurs, in the order of the
/// atlas, each with everywhere it stands, in reading order.
pub fn texts_as_draw_tasks(atlas: &FontAtlas, texts: &Vec<String>) -> (draws: Vec<GlyphDraw>)
    ensures
        draws@.len() == glyph_draws(texts@, GLYPH_COUNT as nat).len(),
        forall|i: int|
            0 <= i < draws@.len() ==> {
                &&& (#[trigger] draws@[i]).glyph == glyph_draws(texts@, GLYPH_COUNT as nat)[i].0
                &&& draws@[i].placements@ == glyph_draws(texts@, GLYPH_COUNT as nat)[i].1
            },
{
    let mut buckets: Vec<Vec<Placement>> = Vec::new();
    let mut i: usize = 0;
    while i < GLYPH_COUNT
        invariant
            i <= GLYPH_COUNT,
            buckets@.len() == i,
            forall|g: int| 0 <= g < i ==> (#[trigger] buckets@[g])@ == Seq::<Placement>::empty(),
        decreases GLYPH_COUNT - i,
    {
        buckets.push(Vec::new());
        i += 1;
    }
    let mut t: usize = 0;
    assert(texts@.subrange(0, 0) =~= Seq::<String>::empty());
    while t < texts.len()
        invariant
            t <= texts@.len(),
            buckets@.len() == GLYPH_COUNT,
            forall|g: int|
                0 <= g < GLYPH_COUNT ==> (#[trigger] buckets@[g])@ == placed(
                    texts@.subrange(0, t as int),
                    g,
                ),
        decreases texts@.len() - t,
    {
        assert(texts@.subrange(0, t + 1).drop_last() =~= texts@.subrange(0, t as int));
        sort_text(&mut buckets, &texts[t], t, atlas);
        t += 1;
    }
    assert(texts@.subrange(0, texts@.len() as int) =~= texts@);
    let mut draws: Vec<GlyphDraw> = Vec::new();
    let mut g: usize = 0;
    while g < GLYPH_COUNT
        invariant
            g <= GLYPH_COUNT,
            buckets@.len() == GLYPH_COUNT,
            forall|h: int|
                g <= h < GLYPH_COUNT ==> (#[trigger] buckets@[h])@ == placed(texts@, h),
            draws@.len() == glyph_draws(texts@, g as nat).len(),
            forall|k: int|
                0 <= k < draws@.len() ==> {
                    &&& (#[trigger] draws@[k]).glyph == glyph_draws(texts@, g as nat)[k].0
                    &&& draws@[k].placements@ == glyph_draws(texts@, g as nat)[k].1
                },
        decreases GLYPH_COUNT - g,
    {
        let mut placements: Vec<Placement> = Vec::new();
        std::mem::swap(&mut placements, &mut buckets[g]);
        if placements.len() != 0 {
            draws.push(GlyphDraw { glyph: g as u32, placements });
        }
        g += 1;
    }
    draws
}

/// The cells follow the alphabet: capitals from 0 on, small letters from 26 on,
/// digits from 52 on, each next to the one before it in its row of letters;
/// everything else has cell 62, the last.
pub proof fn cells_follow_the_alphabet(c: char, next: char)
    ensures
        glyph_of('A') == 0 && glyph_of('Z') == 25,
        glyph_of('a') == 26 && glyph_of('z') == 51,
        glyph_of('0') == 52 && glyph_of('9') == 61,
        next as int == c as int + 1 && ('A' <= c && next <= 'Z' || 'a' <= c && next <= 'z' || '0'
            <= c && next <= '9') ==> glyph_of(next) == glyph_of(c) + 1,
        !('A' <= c <= 'Z' || 'a' <= c <= 'z' || '0' <= c <= '9') ==> glyph_of(c) == 62,
        forall|glyph: int| glyph >= 62 ==> #[trigger] char_of(glyph) == ' ',
        GLYPH_COUNT == 63,
{
}

proof fn places_in_a_text(text: Seq<char>, index: usize, glyph: int)
    requires
        text.len() <= usize::MAX,
    ensures
        forall|k: int|
            0 <= k < placed_in_text(text, index, glyph).len() ==> {
                let p = #[trigger] placed_in_text(text, index, glyph)[k];
                p.0 == index && p.1 < text.len() && glyph_of(text[p.1 as int]) == glyph
            },
        forall|k: int, l: int|
            0 <= k < l < placed_in_text(text, index, glyph).len() ==> (
            #[trigger] placed_in_text(text, index, glyph)[k]).1 < (
            #[trigger] placed_in_text(text, index, glyph)[l]).1,
        forall|q: int|
            0 <= q < text.len() && glyph_of(#[trigger] text[q]) == glyph ==> placed_in_text(
                text,
                index,
                glyph,
            ).contains((index, q as usize)),
    decreases text.len(),
{
    if text.len() > 0 {
        let init = text.drop_last();
        places_in_a_text(init, index, glyph);
        let some = placed_in_text(init, index, glyph);
        let all = placed_in_text(text, index, glyph);
        assert forall|q: int|
            0 <= q < text.len() && glyph_of(#[trigger] text[q]) == glyph implies all.contains(
            (index, q as usize),
        ) by {
            if q < init.len() {
                assert(init[q] == text[q]);
                let k = choose|k: int| 0 <= k < some.len() && some[k] == (index, q as usize);
                assert(all[k] == (index, q as usize));
            } else {
                assert(all[all.len() - 1] == (index, q as usize));
            }
        }
        assert forall|k: int| 0 <= k < all.len() implies {
            let p = #[trigger] all[k];
            p.0 == index && p.1 < text.len() && glyph_of(text[p.1 as int]) == glyph
        } by {
            if k < some.len() {
                assert(all[k] == some[k]);
                assert(init[some[k].1 as int] == text[some[k].1 as int]);
            }
        }
        assert forall|k: int, l: int| 0 <= k < l < all.len() implies (#[trigger] all[k]).1 < (
        #[trigger] all[l]).1 by {
            assert(all[k] == some[k]);
            if l < some.len() {
                assert(all[l] == some[l]);
            }
        }
    }
}

proof fn places_in_texts(texts: Seq<String>, glyph: int)
    requires
        texts.len() <= usize::MAX,
        forall|t: int| 0 <= t < texts.len() ==> (#[trigger] texts[t])@.len() <= usize::MAX,
    ensures
        forall|k: int|
            0 <= k < placed(texts, glyph).len() ==> {
                let p = #[trigger] placed(texts, glyph)[k];
                p.0 < texts.len() && p.1 < texts[p.0 as int]@.len() && glyph_of(
                    texts[p.0 as int]@[p.1 as int],
                ) == glyph
            },
        forall|k: int, l: int|
            0 <= k < l < placed(texts, glyph).len() ==> (#[trigger] placed(texts, glyph)[k]).0 < (
            #[trigger] placed(texts, glyph)[l]).0 || (placed(texts, glyph)[k].0 == placed(
                texts,
                glyph,
            )[l].0 && placed(texts, glyph)[k].1 < placed(texts, glyph)[l].1),
        forall|t: int, q: int|
            0 <= t < texts.len() && 0 <= q < texts[t]@.len() && glyph_of(#[trigger] texts[t]@[q])
                == glyph ==> placed(texts, glyph).contains((t as usize, q as usize)),
    decreases texts.len(),
{
    if texts.len() > 0 {
        let init = texts.drop_last();
        assert(forall|t: int| 0 <= t < init.len() ==> init[t] == texts[t]);
        places_in_texts(init, glyph);
        let index = (texts.len() - 1) as usize;
        assert(texts[index as int] == texts.last());
        places_in_a_text(texts.last()@, index, glyph);
        let some = placed(init, glyph);
        let last = placed_in_text(texts.last()@, index, glyph);
        let all = placed(texts, glyph);
        assert(all == some + last);
        assert forall|k: int| 0 <= k < all.len() implies {
            let p = #[trigger] all[k];
            p.0 < texts.len() && p.1 < texts[p.0 as int]@.len() && glyph_of(
                texts[p.0 as int]@[p.1 as int],
            ) == glyph
        } by {
            if k < some.len() {
                assert(all[k] == some[k]);
            } else {
                assert(all[k] == last[k - some.len()]);
            }
        }
        assert forall|k: int, l: int| 0 <= k < l < all.len() implies (#[trigger] all[k]).0 < (
        #[trigger] all[l]).0 || (all[k].0 == all[l].0 && all[k].1 < all[l].1) by {
            if l < some.len() {
                assert(all[k] == some[k] && all[l] == some[l]);
            } else if k < some.len() {
                assert(all[k] == some[k] && all[l] == last[l - some.len()]);
            } else {
                assert(all[k] == last[k - some.len()] && all[l] == last[l - some.len()]);
            }
        }
        assert forall|t: int, q: int|
            0 <= t < texts.len() && 0 <= q < texts[t]@.len() && glyph_of(#[trigger] texts[t]@[q])
                == glyph implies all.contains((t as usize, q as usize)) by {
            if t < init.len() {
                assert(init[t]@[q] == texts[t]@[q]);
                let k = choose|k: int|
                    0 <= k < some.len() && some[k] == (t as usize, q as usize);
                assert(all[k] == (t as usize, q as usize));
            } else {
                assert(glyph_of(texts.last()@[q]) == glyph);
                let k = choose|k: int| 0 <= k < last.len() && last[k] == (index, q as usize);
                assert(all[some.len() + k] == (t as usize, q as usize));
            }
        }
    }
}

proof fn draws_of_glyphs(texts: Seq<String>, bound: nat)
    ensures
        forall|i: int|
            0 <= i < glyph_draws(texts, bound).len() ==> {
                let d = #[trigger] glyph_draws(texts, bound)[i];
                0 <= d.0 < bound && d.1 == placed(texts, d.0) && d.1.len() > 0
            },
        forall|i: int, j: int|
            0 <= i < j < glyph_draws(texts, bound).len() ==> (
            #[trigger] glyph_draws(texts, bound)[i]).0 < (
            #[trigger] glyph_draws(texts, bound)[j]).0,
        forall|g: int|
            0 <= g < bound && (#[trigger] placed(texts, g)).len() > 0 ==> glyph_draws(
                texts,
                bound,
            ).contains((g, placed(texts, g))),
    decreases bound,
{
    if bound > 0 {
        let below = (bound - 1) as nat;
        draws_of_glyphs(texts, below);
        let some = glyph_draws(texts, below);
        let all = glyph_draws(texts, bound);
        assert forall|g: int|
            0 <= g < bound && (#[trigger] placed(texts, g)).len() > 0 implies all.contains(
            (g, placed(texts, g)),
        ) by {
            if g < below {
                let i = choose|i: int| 0 <= i < some.len() && some[i] == (g, placed(texts, g));
                assert(all[i] == (g, placed(texts, g)));
            } else {
                assert(all[all.len() - 1] == (g, placed(texts, g)));
            }
        }
        assert forall|i: int| 0 <= i < all.len() implies {
            let d = #[trigger] all[i];
            0 <= d.0 < bound && d.1 == placed(texts, d.0) && d.1.len() > 0
        } by {
            if i < some.len() {
                assert(all[i] == some[i]);
            }
        }
        assert forall|i: int, j: int| 0 <= i < j < all.len() implies (#[trigger] all[i]).0 < (
        #[trigger] all[j]).0 by {
            assert(all[i] == some[i]);
            if j < some.len() {
                assert(all[j] == some[j]);
            }
        }
    }
}

/// Every character of every text is drawn, by one draw and once in it: by the
/// draw of its own cell.
pub proof fn every_character_is_drawn_once(texts: Seq<String>, t: int, q: int) -> (at: (int, int))
    requires
        texts.len() <= usize::MAX,
        forall|s: int| 0 <= s < texts.len() ==> (#[trigger] texts[s])@.len() <= usize::MAX,
        0 <= t < texts.len(),
        0 <= q < texts[t]@.len(),
    ensures
        ({
            let draws = glyph_draws(texts, GLYPH_COUNT as nat);
            &&& 0 <= at.0 < draws.len()
            &&& 0 <= at.1 < draws[at.0].1.len()
            &&& draws[at.0].1[at.1] == (t as usize, q as usize)
            &&& draws[at.0].0 == glyph_of(texts[t]@[q])
            &&& forall|i: int, j: int|
                0 <= i < draws.len() && 0 <= j < draws[i].1.len() && #[trigger] draws[i].1[j] == (
                    t as usize,
                    q as usize,
                ) ==> (i, j) == at
        }),
{
    let draws = glyph_draws(texts, GLYPH_COUNT as nat);
    let c = texts[t]@[q];
    let g = glyph_of(c);
    glyphs_and_chars_match(c, 0);
    draws_of_glyphs(texts, GLYPH_COUNT as nat);
    places_in_texts(texts, g);
    let here = placed(texts, g);
    let j = choose|j: int| 0 <= j < here.len() && here[j] == (t as usize, q as usize);
    let i = choose|i: int| 0 <= i < draws.len() && draws[i] == (g, here);
    assert forall|k: int, l: int|
        0 <= k < draws.len() && 0 <= l < draws[k].1.len() && #[trigger] draws[k].1[l] == (
            t as usize,
            q as usize,
        ) implies (k, l) == (i, j) by {
        places_in_texts(texts, draws[k].0);
        assert(placed(texts, draws[k].0)[l] == (t as usize, q as usize));
        if k < i {
            assert(draws[k].0 < draws[i].0);
        } else if i < k {
            assert(draws[i].0 < draws[k].0);
        } else if l < j {
            assert(here[l] == here[j]);
        } else if j < l {
            assert(here[j] == here[l]);
        }
    }
    (i, j)
}

/// Nothing else is drawn: every draw places characters of the texts and at
/// least one of them, in reading order, and the draws follow the order of the
/// cells.
pub proof fn only_characters_are_drawn(texts: Seq<String>, i: int, j: int)
    requires
        texts.len() <= usize::MAX,
        forall|s: int| 0 <= s < texts.len() ==> (#[trigger] texts[s])@.len() <= usize::MAX,
        0 <= i < glyph_draws(texts, GLYPH_COUNT as nat).len(),
        0 <= j < glyph_draws(texts, GLYPH_COUNT as nat)[i].1.len(),
    ensures
        ({
            let draws = glyph_draws(texts, GLYPH_COUNT as nat);
            let (t, q) = draws[i].1[j];
            &&& 0 <= draws[i].0 < 63
            &&& t < texts.len()
            &&& q < texts[t as int]@.len()
            &&& glyph_of(texts[t as int]@[q as int]) == draws[i].0
            &&& forall|k: int|
                j < k < draws[i].1.len() ==> t < (#[trigger] draws[i].1[k]).0 || (t
                    == draws[i].1[k].0 && q < draws[i].1[k].1)
            &&& forall|k: int|
                i < k < draws.len() ==> draws[i].0 < (#[trigger] draws[k]).0 && draws[k].1.len() > 0
        }),
{
    let draws = glyph_draws(texts, GLYPH_COUNT as nat);
    draws_of_glyphs(texts, GLYPH_COUNT as nat);
    places_in_texts(texts, draws[i].0);
    assert(draws[i].1[j] == placed(texts, draws[i].0)[j]);
}

} // verus!
