//! Finding a sprite's frame in a sprite sheet by its name.

use vstd::prelude::*;
use vstd::utf8::encode_utf8;

verus! {

/// Where a frame lies in the sheet, in pixels.
#[derive(Clone, Copy, Debug, PartialEq, Eq, Structural)]
pub struct FrameOffsets {
    /// Left edge.
    pub x: usize,
    /// Top edge.
    pub y: usize,
    /// Width.
    pub w: usize,
    /// Height.
    pub h: usize,
}

/// One frame of the sheet.
#[derive(Debug)]
pub struct SpriteFrame {
    /// The name the frame was exported under.
    pub filename: String,
    /// Where the frame lies.
    pub frame: FrameOffsets,
    /// For how long the frame shows in its animation, in milliseconds.
    pub duration: u64,
}

/// The frames of a sprite sheet, in the order of the sheet.
#[derive(Debug)]
pub struct SpriteAtlas {
    /// The frames.
    pub frames: Vec<SpriteFrame>,
}

/// Whether the bytes of `text` begin with the bytes of `prefix`.
pub open spec fn begins_with(text: Seq<u8>, prefix: Seq<u8>) -> bool {
    prefix.len() <= text.len() && text.subrange(0, prefix.len() as int) == prefix
}

/// Whether `text` begins with `prefix`, both in UTF-8.
pub fn starts_with(text: &str, prefix: &str) -> (starts: bool)
    ensures
        starts == begins_with(encode_utf8(text@), encode_utf8(prefix@)),
{
    let have = text.as_bytes();
    let want = prefix.as_bytes();
    if want.len() > have.len() {
        return false;
    }
    let mut i: usize = 0;
    while i < want.len()
        invariant
            have@ == encode_utf8(text@),
            want@ == encode_utf8(prefix@),
            i <= want@.len() <= have@.len(),
            have@.subrange(0, i as int) == want@.subrange(0, i as int),
        decreases want@.len() - i,
    {
        if have[i] != want[i] {
            proof {
                let whole = want@.len() as int;
                assert(have@.subrange(0, whole)[i as int] != want@[i as int]);
            }
            return false;
        }
        proof {
            assert(have@.subrange(0, i + 1) =~= have@.subrange(0, i as int).push(have@[i as int]));
            assert(want@.subrange(0, i + 1) =~= want@.subrange(0, i as int).push(want@[i as int]));
        }
        i += 1;
    }
    proof {
        assert(want@.subrange(0, want@.len() as int) =~= want@);
    }
    true
}

impl SpriteAtlas {
    /// Whether the frame at `index` is named `name`: its file name begins
    /// with it.
    pub open spec fn names(&self, index: int, name: &str) -> bool {
        begins_with(encode_utf8(self.frames@[index].filename@), encode_utf8(name@))
    }

    /// The position of the first frame whose file name begins with `name`,
    /// if any frame's does.
    pub fn find_frame(&self, name: &str) -> (found: Option<usize>)
        ensures
            match found {
                Some(at) => {
                    &&& at < self.frames@.len()
                    &&& self.names(at as int, name)
                    &&& forall|before: int| 0 <= before < at ==> !self.names(before, name)
                },
                None => forall|any: int| 0 <= any < self.frames@.len() ==> !self.names(any, name),
            },
    {
        let mut i: usize = 0;
        while i < self.frames.len()
            invariant
                i <= self.frames@.len(),
                forall|before: int| 0 <= before < i ==> !self.names(before, name),
            decreases self.frames@.len() - i,
        {
            if starts_with(self.frames[i].filename.as_str(), name) {
                return Some(i);
            }
            i += 1;
        }
        None
    }

    /// The offsets of the first frame whose file name begins with `name`.
    pub fn get_offsets(&self, name: &str) -> (found: Option<FrameOffsets>)
        ensures
            match found {
                Some(offsets) => exists|at: int|
                    {
                        &&& 0 <= at < self.frames@.len()
                        &&& offsets == self.frames@[at].frame
                        &&& self.names(at, name)
                        &&& forall|before: int| 0 <= before < at ==> !self.names(before, name)
                    },
                None => forall|any: int| 0 <= any < self.frames@.len() ==> !self.names(any, name),
            },
    {
        match self.find_frame(name) {
            Some(at) => Some(self.frames[at].frame),
            None => None,
        }
    }
}

} // verus!
