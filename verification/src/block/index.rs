//! The reverse index of the atlas: which face textures wait for which
//! image. It is a set of `(image, face)` pairs, kept sorted by image and
//! then by face, so that the faces of one image lie next to each other.

use vstd::prelude::*;

verus! {

/// The order of the index: by image first, then by face.
pub open spec fn key_lt(a: (u64, u32), b: (u64, u32)) -> bool {
    a.0 < b.0 || (a.0 == b.0 && a.1 < b.1)
}

/// Whether a sequence of pairs ascends strictly in the order of the index.
pub open spec fn ascending(s: Seq<(u64, u32)>) -> bool {
    forall|i: int, j: int| 0 <= i < j < s.len() ==> key_lt(#[trigger] s[i], #[trigger] s[j])
}

/// Whether a sequence of faces ascends strictly.
pub open spec fn faces_ascending(s: Seq<u32>) -> bool {
    forall|i: int, j: int| 0 <= i < j < s.len() ==> #[trigger] s[i] < #[trigger] s[j]
}

/// A sorted set of `(image, face)` pairs.
pub struct TextureIndex {
    entries: Vec<(u64, u32)>,
}

impl View for TextureIndex {
    type V = Set<(u64, u32)>;

    closed spec fn view(&self) -> Set<(u64, u32)> {
        Set::new(|k: (u64, u32)| self.entries@.contains(k))
    }
}

impl TextureIndex {
    /// The invariant: the pairs are stored in ascending order, each once.
    pub closed spec fn wf(&self) -> bool {
        ascending(self.entries@)
    }

    /// The empty index.
    pub fn new() -> (r: Self)
        ensures
            r.wf(),
            r@ == Set::<(u64, u32)>::empty(),
    {
        let r = TextureIndex { entries: Vec::new() };
        assert(r@ =~= Set::<(u64, u32)>::empty());
        r
    }

    /// The number of pairs that come before `(image, face)` in the order
    /// of the index.
    fn lower_bound(&self, image: u64, face: u32) -> (r: usize)
        requires
            self.wf(),
        ensures
            r <= self.entries@.len(),
            forall|i: int| 0 <= i < r ==> key_lt(#[trigger] self.entries@[i], (image, face)),
            forall|i: int|
                r <= i < self.entries@.len() ==> !key_lt(#[trigger] self.entries@[i], (image, face)),
    {
        let mut lo: usize = 0;
        let mut hi: usize = self.entries.len();
        while lo < hi
            invariant
                self.wf(),
                lo <= hi <= self.entries@.len(),
                forall|i: int| 0 <= i < lo ==> key_lt(#[trigger] self.entries@[i], (image, face)),
                forall|i: int|
                    hi <= i < self.entries@.len() ==> !key_lt(
                        #[trigger] self.entries@[i],
                        (image, face),
                    ),
            decreases hi - lo,
        {
            let mid: usize = lo + (hi - lo) / 2;
            let e = self.entries[mid];
            if e.0 < image || (e.0 == image && e.1 < face) {
                assert forall|i: int| 0 <= i < mid + 1 implies key_lt(
                    #[trigger] self.entries@[i],
                    (image, face),
                ) by {
                    if i < mid {
                        assert(key_lt(self.entries@[i], self.entries@[mid as int]));
                    }
                }
                lo = mid + 1;
            } else {
                assert forall|i: int| mid <= i < self.entries@.len() implies !key_lt(
                    #[trigger] self.entries@[i],
                    (image, face),
                ) by {
                    if mid < i {
                        assert(key_lt(self.entries@[mid as int], self.entries@[i]));
                    }
                }
                hi = mid;
            }
        }
        lo
    }

    /// Whether the index holds the pair.
    pub fn contains(&self, image: u64, face: u32) -> (r: bool)
        requires
            self.wf(),
        ensures
            r == self@.contains((image, face)),
    {
        let i: usize = self.lower_bound(image, face);
        if i < self.entries.len() {
            let e = self.entries[i];
            let found = e.0 == image && e.1 == face;
            proof {
                if !found && self.entries@.contains((image, face)) {
                    let j = choose|j: int|
                        0 <= j < self.entries@.len() && self.entries@[j] == (image, face);
                    assert(j > i);
                    assert(key_lt(self.entries@[i as int], self.entries@[j]));
                }
            }
            found
        } else {
            proof {
                if self.entries@.contains((image, face)) {
                    let j = choose|j: int|
                        0 <= j < self.entries@.len() && self.entries@[j] == (image, face);
                    assert(key_lt(self.entries@[j], (image, face)));
                }
            }
            false
        }
    }

    /// Adds the pair; says whether it was new.
    pub fn insert(&mut self, image: u64, face: u32) -> (r: bool)
        requires
            old(self).wf(),
        ensures
            final(self).wf(),
            final(self)@ == old(self)@.insert((image, face)),
            r == !old(self)@.contains((image, face)),
    {
        let i: usize = self.lower_bound(image, face);
        let present = if i < self.entries.len() {
            let e = self.entries[i];
            e.0 == image && e.1 == face
        } else {
            false
        };
        if present {
            assert(self.entries@.contains((image, face)));
            assert(self@ =~= self@.insert((image, face)));
            return false;
        }
        proof {
            if self.entries@.contains((image, face)) {
                let j = choose|j: int|
                    0 <= j < self.entries@.len() && self.entries@[j] == (image, face);
                if j > i {
                    assert(key_lt(self.entries@[i as int], self.entries@[j]));
                }
            }
        }
        let ghost before = self.entries@;
        self.entries.insert(i, (image, face));
        proof {
            let after = self.entries@;
            assert(after.len() == before.len() + 1);
            assert(forall|j: int| 0 <= j < i ==> after[j] == before[j]);
            assert(after[i as int] == (image, face));
            assert(forall|j: int| i < j < after.len() ==> after[j] == before[j - 1]);
            assert forall|a: int, b: int| 0 <= a < b < after.len() implies key_lt(
                #[trigger] after[a],
                #[trigger] after[b],
            ) by {
                if b < i {
                    assert(key_lt(before[a], before[b]));
                } else if b == i {
                    assert(key_lt(before[a], (image, face)));
                } else if a < i {
                    assert(key_lt(before[a], before[b - 1]));
                } else if a == i {
                    assert(!key_lt(before[b - 1], (image, face)));
                    assert(before[b - 1] != (image, face)) by {
                        assert(before.contains(before[b - 1]));
                    }
                } else {
                    assert(key_lt(before[a - 1], before[b - 1]));
                }
            }
            assert forall|k: (u64, u32)| after.contains(k) <==> (before.contains(k) || k == (
                image,
                face,
            )) by {
                if after.contains(k) {
                    let j = choose|j: int| 0 <= j < after.len() && after[j] == k;
                    if j < i {
                        assert(before[j] == k);
                    } else if j > i {
                        assert(before[j - 1] == k);
                    }
                }
                if before.contains(k) {
                    let j = choose|j: int| 0 <= j < before.len() && before[j] == k;
                    if j < i {
                        assert(after[j] == k);
                    } else {
                        assert(after[j + 1] == k);
                    }
                }
            }
            assert(self@ =~= old(self)@.insert((image, face)));
        }
        true
    }

    /// Drops the pair; says whether the index held it.
    pub fn remove(&mut self, image: u64, face: u32) -> (r: bool)
        requires
            old(self).wf(),
        ensures
            final(self).wf(),
            final(self)@ == old(self)@.remove((image, face)),
            r == old(self)@.contains((image, face)),
    {
        let i: usize = self.lower_bound(image, face);
        let present = if i < self.entries.len() {
            let e = self.entries[i];
            e.0 == image && e.1 == face
        } else {
            false
        };
        if !present {
            proof {
                if self.entries@.contains((image, face)) {
                    let j = choose|j: int|
                        0 <= j < self.entries@.len() && self.entries@[j] == (image, face);
                    if j > i {
                        assert(key_lt(self.entries@[i as int], self.entries@[j]));
                    } else if j < i {
                        assert(key_lt(self.entries@[j], (image, face)));
                    }
                }
                assert(self@ =~= self@.remove((image, face)));
            }
            return false;
        }
        let ghost before = self.entries@;
        self.entries.remove(i);
        proof {
            let after = self.entries@;
            assert(before[i as int] == (image, face));
            assert(before.contains((image, face)));
            assert(after.len() == before.len() - 1);
            assert(forall|j: int| 0 <= j < i ==> after[j] == before[j]);
            assert(forall|j: int| i <= j < after.len() ==> after[j] == before[j + 1]);
            assert forall|a: int, b: int| 0 <= a < b < after.len() implies key_lt(
                #[trigger] after[a],
                #[trigger] after[b],
            ) by {
                let a0 = if a < i { a } else { a + 1 };
                let b0 = if b < i { b } else { b + 1 };
                assert(key_lt(before[a0], before[b0]));
            }
            assert forall|k: (u64, u32)| after.contains(k) <==> (before.contains(k) && k != (
                image,
                face,
            )) by {
                if after.contains(k) {
                    let j = choose|j: int| 0 <= j < after.len() && after[j] == k;
                    let j0 = if j < i { j } else { j + 1 };
                    assert(before[j0] == k);
                    if j0 < i {
                        assert(key_lt(before[j0], before[i as int]));
                    } else {
                        assert(key_lt(before[i as int], before[j0]));
                    }
                }
                if before.contains(k) && k != (image, face) {
                    let j = choose|j: int| 0 <= j < before.len() && before[j] == k;
                    if j < i {
                        assert(after[j] == k);
                    } else {
                        assert(after[j - 1] == k);
                    }
                }
            }
            assert(self@ =~= old(self)@.remove((image, face)));
        }
        true
    }

    /// The faces that the index holds for `image`, in ascending order.
    pub fn faces_of(&self, image: u64) -> (r: Vec<u32>)
        requires
            self.wf(),
        ensures
            faces_ascending(r@),
            forall|face: u32| r@.contains(face) <==> self@.contains((image, face)),
    {
        let start: usize = self.lower_bound(image, 0);
        let mut faces: Vec<u32> = Vec::new();
        let mut i: usize = start;
        while i < self.entries.len() && self.entries[i].0 == image
            invariant
                self.wf(),
                start <= i <= self.entries@.len(),
                faces@.len() == i - start,
                forall|j: int| 0 <= j < start ==> key_lt(#[trigger] self.entries@[j], (image, 0u32)),
                forall|j: int|
                    start <= j < self.entries@.len() ==> !key_lt(
                        #[trigger] self.entries@[j],
                        (image, 0u32),
                    ),
                forall|j: int|
                    0 <= j < faces@.len() ==> self.entries@[start + j] == (image, #[trigger] faces@[j]),
            decreases self.entries@.len() - i,
        {
            faces.push(self.entries[i].1);
            i += 1;
        }
        proof {
            let e = self.entries@;
            assert forall|a: int, b: int| 0 <= a < b < faces@.len() implies #[trigger] faces@[a]
                < #[trigger] faces@[b] by {
                assert(key_lt(e[start + a], e[start + b]));
            }
            assert forall|face: u32| faces@.contains(face) <==> self@.contains((image, face)) by {
                if faces@.contains(face) {
                    let j = choose|j: int| 0 <= j < faces@.len() && faces@[j] == face;
                    assert(e[start + j] == (image, face));
                    assert(e.contains((image, face)));
                }
                if e.contains((image, face)) {
                    let j = choose|j: int| 0 <= j < e.len() && e[j] == (image, face);
                    if j < start {
                        assert(key_lt(e[j], (image, 0u32)));
                    } else if j >= i {
                        if i < e.len() {
                            assert(!key_lt(e[i as int], (image, 0u32)));
                            if i < j {
                                assert(key_lt(e[i as int], e[j]));
                            }
                        }
                    } else {
                        assert(faces@[j - start] == face);
                    }
                }
            }
        }
        faces
    }

    /// Drops every pair of `image`.
    pub fn remove_image(&mut self, image: u64)
        requires
            old(self).wf(),
        ensures
            final(self).wf(),
            forall|k: (u64, u32)| final(self)@.contains(k) <==> old(self)@.contains(k) && k.0 != image,
    {
        let faces = self.faces_of(image);
        let mut i: usize = 0;
        proof {
            assert forall|k: (u64, u32)| self@.contains(k) && k.0 == image implies exists|j: int|
                0 <= j < faces@.len() && #[trigger] faces@[j] == k.1 by {
                assert(faces@.contains(k.1));
            }
        }
        while i < faces.len()
            invariant
                self.wf(),
                i <= faces@.len(),
                faces_ascending(faces@),
                forall|face: u32| faces@.contains(face) <==> old(self)@.contains((image, face)),
                forall|k: (u64, u32)|
                    self@.contains(k) <==> old(self)@.contains(k) && (k.0 != image || exists|j: int|
                        i <= j < faces@.len() && #[trigger] faces@[j] == k.1),
            decreases faces@.len() - i,
        {
            let ghost before = self@;
            self.remove(image, faces[i]);
            proof {
                assert forall|k: (u64, u32)|
                    self@.contains(k) <==> old(self)@.contains(k) && (k.0 != image || exists|j: int|
                        i + 1 <= j < faces@.len() && #[trigger] faces@[j] == k.1) by {
                    if before.contains(k) && k.0 == image {
                        let j = choose|j: int| i <= j < faces@.len() && #[trigger] faces@[j] == k.1;
                        if j > i {
                            assert(faces@[i as int] < faces@[j]);
                        }
                    }
                    if k.0 == image && (exists|j: int|
                        i + 1 <= j < faces@.len() && #[trigger] faces@[j] == k.1) {
                        let j = choose|j: int|
                            i + 1 <= j < faces@.len() && #[trigger] faces@[j] == k.1;
                        assert(faces@[i as int] < faces@[j]);
                    }
                }
            }
            i += 1;
        }
    }
}

} // verus!
