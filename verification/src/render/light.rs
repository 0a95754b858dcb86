//! Lights, as the bytes that the shaders read. Every number is held as the
//! bits of a single-precision float.

use vstd::prelude::*;


verus! {

/// Bytes of one light.
pub const LIGHT_BYTES: usize = 32;

/// The bits of the float 1, which marks a point light.
pub const POINT_LIGHT_MARK: u32 = 0x3f80_0000;

/// The bits of the float 2, which marks a directional light.
pub const DIRECTIONAL_LIGHT_MARK: u32 = 0x4000_0000;

/// The four bytes of a word, the lowest first.
pub open spec fn le_word(w: u32) -> Seq<u8> {
    seq![
        (w % 256) as u8,
        (w / 0x100 % 256) as u8,
        (w / 0x1_0000 % 256) as u8,
        (w / 0x100_0000) as u8,
    ]
}

/// Whether bytes hold words, in the byte order of some machine.
pub open spec fn holds_words(bytes: Seq<u8>, words: Seq<u32>, lowest_first: bool) -> bool {
    &&& bytes.len() == 4 * words.len()
    &&& forall|i: int|
        0 <= i < words.len() ==> bytes.subrange(4 * i, 4 * i + 4) == (if lowest_first {
            le_word(#[trigger] words[i])
        } else {
            le_word(words[i]).reverse()
        })
}

/// `bytemuck::cast_slice` from words to bytes.
///
/// Trusted: the bytes are those of the words, in order, each in the byte order
/// of the machine. Which byte order that is is left unsaid.
#[verifier::external_body]
fn word_bytes(words: &[u32]) -> (bytes: Vec<u8>)
    ensures
        holds_words(bytes@, words@, true) || holds_words(bytes@, words@, false),
{
    bytemuck::cast_slice::<u32, u8>(words).to_vec()
}

/// A light that shines from a point.
#[derive(Debug, Clone, Copy)]
pub struct PointLight {
    pub color: [u32; 3],
    pub position: [u32; 3],
}

/// A light that shines in a direction.
#[derive(Debug, Clone, Copy)]
pub struct DirectionalLight {
    pub color: [u32; 3],
    pub direction: [u32; 3],
}

/// A light.
#[derive(Debug, Clone, Copy)]
pub enum Light {
    Directional(DirectionalLight),
    Point(PointLight),
}

impl Light {
    /// The eight words of a light: its color, the mark of its kind, where it
    /// is or where it shines, and nothing.
    pub open spec fn words(self) -> Seq<u32> {
        match self {
            Light::Point(l) => seq![
                l.color[0],
                l.color[1],
                l.color[2],
                POINT_LIGHT_MARK,
                l.position[0],
                l.position[1],
                l.position[2],
                0u32,
            ],
            Light::Directional(l) => seq![
                l.color[0],
                l.color[1],
                l.color[2],
                DIRECTIONAL_LIGHT_MARK,
                l.direction[0],
                l.direction[1],
                l.direction[2],
                0u32,
            ],
        }
    }

    /// The light's words.
    pub fn to_words(&self) -> (words: Vec<u32>)
        ensures
            words@ == self.words(),
    {
        let (color, mark, place): (&[u32; 3], u32, &[u32; 3]) = match self {
            Light::Point(l) => (&l.color, POINT_LIGHT_MARK, &l.position),
            Light::Directional(l) => (&l.color, DIRECTIONAL_LIGHT_MARK, &l.direction),
        };
        let words: Vec<u32> = vec![
            color[0],
            color[1],
            color[2],
            mark,
            place[0],
            place[1],
            place[2],
            0u32,
        ];
        assert(words@ =~= self.words());
        words
    }
}

/// The words of some lights, one light after the other.
pub open spec fn all_words(lights: Seq<Light>) -> Seq<u32>
    decreases lights.len(),
{
    if lights.len() == 0 {
        Seq::empty()
    } else {
        all_words(lights.drop_last()) + lights.last().words()
    }
}

/// Each light has its eight words, at eight times its index.
pub proof fn light_words_are_in_place(lights: Seq<Light>, i: int)
    requires
        0 <= i < lights.len(),
    ensures
        all_words(lights).len() == 8 * lights.len(),
        all_words(lights).subrange(8 * i, 8 * i + 8) == lights[i].words(),
    decreases lights.len(),
{
    let init = lights.drop_last();
    if init.len() == 0 {
        assert(all_words(init) =~= Seq::<u32>::empty());
    } else {
        light_words_are_in_place(init, if i < init.len() {
            i
        } else {
            0
        });
    }
    assert(all_words(lights).len() == 8 * lights.len());
    if i == lights.len() - 1 {
        assert(all_words(lights).subrange(8 * i, 8 * i + 8) =~= lights[i].words());
    } else {
        assert(all_words(lights).subrange(8 * i, 8 * i + 8) =~= all_words(init).subrange(
            8 * i,
            8 * i + 8,
        ));
    }
}

/// The lights of a scene.
pub struct LightCollection(pub Vec<Light>);

impl LightCollection {
    /// The lights' words, one light after the other.
    pub fn to_words(&self) -> (words: Vec<u32>)
        ensures
            words@ == all_words(self.0@),
    {
        let mut words: Vec<u32> = Vec::new();
        let mut i: usize = 0;
        assert(self.0@.subrange(0, 0) =~= Seq::<Light>::empty());
        while i < self.0.len()
            invariant
                i <= self.0@.len(),
                words@ == all_words(self.0@.subrange(0, i as int)),
            decreases self.0@.len() - i,
        {
            assert(self.0@.subrange(0, i + 1).drop_last() =~= self.0@.subrange(0, i as int));
            let mut light = self.0[i].to_words();
            words.append(&mut light);
            i += 1;
        }
        assert(self.0@.subrange(0, self.0@.len() as int) =~= self.0@);
        words
    }

    /// The lights as bytes, in the byte order of the machine.
    pub fn to_bytes(&self) -> (bytes: Vec<u8>)
        ensures
            bytes@.len() == LIGHT_BYTES * self.0@.len(),
            holds_words(bytes@, all_words(self.0@), true) || holds_words(
                bytes@,
                all_words(self.0@),
                false,
            ),
    {
        let words = self.to_words();
        proof {
            if self.0@.len() > 0 {
                light_words_are_in_place(self.0@, 0);
            }
        }
        word_bytes(words.as_slice())
    }
}

/// What the shaders are told of the number of lights.
pub fn count_words(lights: u32) -> (words: Vec<u32>)
    ensures
        words@ == seq![0u32, lights, 0u32, 0u32],
{
    let words: Vec<u32> = vec![0u32, lights, 0u32, 0u32];
    assert(words@ =~= seq![0u32, lights, 0u32, 0u32]);
    words
}

/// What the shaders are told of whether wires are drawn.
pub fn wireframe_words(draw_wireframe: bool) -> (words: Vec<u32>)
    ensures
        words@ == seq![
            if draw_wireframe {
                1u32
            } else {
                0u32
            },
            0u32,
            0u32,
            0u32,
        ],
{
    let on: u32 = if draw_wireframe {
        1
    } else {
        0
    };
    let words: Vec<u32> = vec![on, 0u32, 0u32, 0u32];
    assert(words@ =~= seq![on, 0u32, 0u32, 0u32]);
    words
}

/// Word by word, a light is its color, the float 1 or 2 for its kind, where it
/// is or shines, and a zero; among others it begins at eight times its index.
pub proof fn every_light_is_spelled_out(lights: Seq<Light>, i: int)
    requires
        0 <= i < lights.len(),
    ensures
        all_words(lights).len() == 8 * lights.len(),
        lights[i] matches Light::Point(l) ==> {
            let words = all_words(lights);
            &&& words[8 * i] == l.color[0] && words[8 * i + 1] == l.color[1] && words[8 * i + 2]
                == l.color[2]
            &&& words[8 * i + 3] == 0x3f80_0000
            &&& words[8 * i + 4] == l.position[0] && words[8 * i + 5] == l.position[1] && words[8
                * i + 6] == l.position[2]
            &&& words[8 * i + 7] == 0
        },
        lights[i] matches Light::Directional(l) ==> {
            let words = all_words(lights);
            &&& words[8 * i] == l.color[0] && words[8 * i + 1] == l.color[1] && words[8 * i + 2]
                == l.color[2]
            &&& words[8 * i + 3] == 0x4000_0000
            &&& words[8 * i + 4] == l.direction[0] && words[8 * i + 5] == l.direction[1] && words[8
                * i + 6] == l.direction[2]
            &&& words[8 * i + 7] == 0
        },
{
    light_words_are_in_place(lights, i);
    let all = all_words(lights);
    let own = all.subrange(8 * i, 8 * i + 8);
    assert(own[0] == all[8 * i] && own[1] == all[8 * i + 1] && own[2] == all[8 * i + 2]);
    assert(own[3] == all[8 * i + 3] && own[4] == all[8 * i + 4] && own[5] == all[8 * i + 5]);
    assert(own[6] == all[8 * i + 6] && own[7] == all[8 * i + 7]);
}

/// The bytes of a word add up to it, the first counting least; and words that
/// are held as bytes are found there, each at four times its index.
pub proof fn bytes_make_up_their_words(
    bytes: Seq<u8>,
    words: Seq<u32>,
    lowest_first: bool,
    i: int,
)
    requires
        holds_words(bytes, words, lowest_first),
        0 <= i < words.len(),
    ensures
        bytes.len() == 4 * words.len(),
        lowest_first ==> words[i] == bytes[4 * i] + 0x100 * bytes[4 * i + 1] + 0x1_0000 * bytes[4
            * i + 2] + 0x100_0000 * bytes[4 * i + 3],
        !lowest_first ==> words[i] == bytes[4 * i + 3] + 0x100 * bytes[4 * i + 2] + 0x1_0000
            * bytes[4 * i + 1] + 0x100_0000 * bytes[4 * i],
{
    let w = words[i];
    let own = bytes.subrange(4 * i, 4 * i + 4);
    assert(own[0] == bytes[4 * i] && own[1] == bytes[4 * i + 1]);
    assert(own[2] == bytes[4 * i + 2] && own[3] == bytes[4 * i + 3]);
    let le = le_word(w);
    assert(w == le[0] + 0x100 * le[1] + 0x1_0000 * le[2] + 0x100_0000 * le[3]) by {
        assert(w == (w % 256) + 0x100 * (w / 0x100 % 256) + 0x1_0000 * (w / 0x1_0000 % 256)
            + 0x100_0000 * (w / 0x100_0000));
    }
    if !lowest_first {
        assert(le.reverse()[0] == le[3] && le.reverse()[1] == le[2]);
        assert(le.reverse()[2] == le[1] && le.reverse()[3] == le[0]);
    }
}

} // verus!
