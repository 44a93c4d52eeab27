//! The collaborators the scene consumes through narrow interfaces, modeled
//! as plain data: the texture atlas (name to frame and default rect) and
//! the animation-sequence table.

use vstd::prelude::*;

use crate::error::Error;
use crate::geom::Frame;
use crate::geom::Rect;
use crate::geom::GEOM_LIMIT;

verus! {

/// One atlas entry: a texture name, its UV frame, and the default
/// world-size rect a fresh sprite of this texture starts with.
pub struct AtlasEntry {
    pub name: String,
    pub frame: Frame,
    pub default_rect: Rect,
}

/// The texture atlas: a list of named frames, looked up by exact name.
pub struct TextureAtlas {
    pub entries: Vec<AtlasEntry>,
}

impl TextureAtlas {
    /// Some entry carries this name.
    pub open spec fn has_name(self, name: Seq<char>) -> bool {
        exists|i: int| 0 <= i < self.entries@.len() && (#[trigger] self.entries@[i]).name@ == name
    }

    /// Every default rect is axis-aligned with in-range coordinates, so a
    /// sprite built from it starts with sound geometry.
    pub open spec fn wf(self) -> bool {
        forall|i: int|
            0 <= i < self.entries@.len() ==> {
                &&& (#[trigger] self.entries@[i]).default_rect.axis_aligned()
                &&& self.entries@[i].default_rect.coords_bounded(GEOM_LIMIT as int)
            }
    }

    pub fn new() -> (r: TextureAtlas)
        ensures
            r.wf(),
            r.entries@.len() == 0,
    {
        TextureAtlas { entries: Vec::new() }
    }

    /// Registers a texture under a name. Later lookups of a name served by
    /// several entries return the first.
    pub fn add_texture(&mut self, name: String, frame: Frame, default_rect: Rect)
        requires
            old(self).wf(),
            default_rect.axis_aligned(),
            default_rect.coords_bounded(GEOM_LIMIT as int),
        ensures
            final(self).wf(),
            final(self).entries@ == old(self).entries@.push(
                AtlasEntry { name, frame, default_rect },
            ),
    {
        self.entries.push(AtlasEntry { name, frame, default_rect });
    }

    /// The frame and default rect registered under a name: the first entry
    /// with that name, or an unknown-texture error if there is none.
    pub fn lookup(&self, name: &String) -> (r: Result<(Frame, Rect), Error>)
        requires
            self.wf(),
        ensures
            match r {
                Ok(fr) => exists|i: int|
                    {
                        &&& 0 <= i < self.entries@.len()
                        &&& (#[trigger] self.entries@[i]).name@ == name@
                        &&& fr.0 == self.entries@[i].frame
                        &&& fr.1 == self.entries@[i].default_rect
                        &&& forall|j: int| 0 <= j < i ==> (#[trigger] self.entries@[j]).name@
                            != name@
                    },
                Err(e) => {
                    &&& e == Error::UnknownTexture
                    &&& !self.has_name(name@)
                },
            },
            r is Ok ==> {
                &&& r.unwrap().1.axis_aligned()
                &&& r.unwrap().1.coords_bounded(GEOM_LIMIT as int)
                &&& self.has_name(name@)
            },
    {
        let n = self.entries.len();
        let mut i: usize = 0;
        while i < n
            invariant
                self.wf(),
                i <= n,
                n == self.entries@.len(),
                forall|j: int| 0 <= j < i ==> (#[trigger] self.entries@[j]).name@ != name@,
            decreases n - i,
        {
            if self.entries[i].name == *name {
                proof {
                    assert(self.entries@[i as int].default_rect.axis_aligned());
                    assert(self.entries@[i as int].name@ == name@);
                }
                return Ok((self.entries[i].frame, self.entries[i].default_rect));
            }
            i = i + 1;
        }
        Err(Error::UnknownTexture)
    }
}

/// The animation-sequence table: the known sequence names and an
/// accumulated time counter in milliseconds.
pub struct SeqTable {
    pub names: Vec<String>,
    pub elapsed_ms: u64,
}

impl SeqTable {
    /// Some registered sequence carries this name.
    pub open spec fn has_name(self, name: Seq<char>) -> bool {
        exists|i: int| 0 <= i < self.names@.len() && (#[trigger] self.names@[i])@ == name
    }

    pub fn new() -> (r: SeqTable)
        ensures
            r.names@.len() == 0,
            r.elapsed_ms == 0,
    {
        SeqTable { names: Vec::new(), elapsed_ms: 0 }
    }

    /// Registers a sequence name and returns its index.
    pub fn register(&mut self, name: String) -> (idx: usize)
        ensures
            final(self).names@ == old(self).names@.push(name),
            idx == old(self).names@.len(),
            final(self).elapsed_ms == old(self).elapsed_ms,
    {
        let idx = self.names.len();
        self.names.push(name);
        idx
    }

    /// The index of a registered sequence: the first entry with that name,
    /// or an unknown-sequence error.
    pub fn add(&self, name: &String) -> (r: Result<usize, Error>)
        ensures
            match r {
                Ok(i) => {
                    &&& 0 <= i < self.names@.len()
                    &&& (self.names@[i as int])@ == name@
                    &&& forall|j: int| 0 <= j < i ==> (#[trigger] self.names@[j])@ != name@
                },
                Err(e) => {
                    &&& e == Error::UnknownSequence
                    &&& !self.has_name(name@)
                },
            },
    {
        let n = self.names.len();
        let mut i: usize = 0;
        while i < n
            invariant
                i <= n,
                n == self.names@.len(),
                forall|j: int| 0 <= j < i ==> (#[trigger] self.names@[j])@ != name@,
            decreases n - i,
        {
            if self.names[i] == *name {
                return Ok(i);
            }
            i = i + 1;
        }
        Err(Error::UnknownSequence)
    }

    /// Advances the accumulated time, saturating at the counter's maximum.
    pub fn advance(&mut self, delta_ms: u64)
        ensures
            final(self).names == old(self).names,
            old(self).elapsed_ms + delta_ms <= u64::MAX ==> final(self).elapsed_ms == old(
                self,
            ).elapsed_ms + delta_ms,
            old(self).elapsed_ms + delta_ms > u64::MAX ==> final(self).elapsed_ms == u64::MAX,
    {
        if delta_ms > u64::MAX - self.elapsed_ms {
            self.elapsed_ms = u64::MAX;
        } else {
            self.elapsed_ms = self.elapsed_ms + delta_ms;
        }
    }
}

} // verus!
