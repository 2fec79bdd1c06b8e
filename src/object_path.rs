use vstd::prelude::*;

verus! {

/// A dense integer naming one object path, assigned in first-seen order.
#[derive(Debug, Clone, Copy, PartialEq, Eq, Structural)]
pub struct ObjectPathId {
    pub id: usize,
}

impl ObjectPathId {
    pub fn as_usize(&self) -> (r: usize)
        ensures
            r == self.id,
    {
        self.id
    }
}

/// No path occurs twice.
pub open spec fn spec_distinct(paths: Seq<Seq<char>>) -> bool {
    forall|i: int, j: int|
        0 <= i < paths.len() && 0 <= j < paths.len() && i != j ==> paths[i] != paths[j]
}

/// Where `p` stands in `paths`, for a path that occurs.
pub open spec fn spec_position_of(paths: Seq<Seq<char>>, p: Seq<char>) -> int {
    choose|i: int| 0 <= i < paths.len() && paths[i] == p
}

/// Interning `p`: the table afterwards and the id handed out.
pub open spec fn spec_intern(paths: Seq<Seq<char>>, p: Seq<char>) -> (Seq<Seq<char>>, int) {
    if paths.contains(p) {
        (paths, spec_position_of(paths, p))
    } else {
        (paths.push(p), paths.len() as int)
    }
}

/// Maps each distinct object path to its id; id `i` names the `i`-th path seen.
pub struct ObjectPathCache {
    paths: Vec<String>,
}

impl View for ObjectPathCache {
    type V = Seq<Seq<char>>;

    closed spec fn view(&self) -> Seq<Seq<char>> {
        self.paths@.map_values(|s: String| s@)
    }
}

impl ObjectPathCache {
    pub open spec fn wf(&self) -> bool {
        spec_distinct(self@)
    }

    pub fn new() -> (r: ObjectPathCache)
        ensures
            r.wf(),
            r@ == Seq::<Seq<char>>::empty(),
    {
        let r = ObjectPathCache { paths: Vec::new() };
        assert(r@ =~= Seq::<Seq<char>>::empty());
        r
    }

    /// Number of paths seen so far.
    pub fn len(&self) -> (r: usize)
        ensures
            r == self@.len(),
    {
        self.paths.len()
    }

    /// The path that an id names.
    pub fn get_path(&self, id: ObjectPathId) -> (r: Option<&String>)
        ensures
            match r {
                Some(s) => id.id < self@.len() && s@ == self@[id.id as int],
                None => id.id >= self@.len(),
            },
    {
        if id.id < self.paths.len() {
            Some(&self.paths[id.id])
        } else {
            None
        }
    }

    /// The id of `path`, if it has been seen.
    pub fn find_id(&self, path: &String) -> (r: Option<ObjectPathId>)
        ensures
            match r {
                Some(id) => id.id < self@.len() && self@[id.id as int] == path@,
                None => !self@.contains(path@),
            },
    {
        let n = self.paths.len();
        let mut i: usize = 0;
        while i < n
            invariant
                n == self.paths.len(),
                i <= n,
                forall|k: int| 0 <= k < i ==> self@[k] != path@,
            decreases n - i,
        {
            if self.paths[i] == *path {
                assert(self@[i as int] == self.paths@[i as int]@);
                return Some(ObjectPathId { id: i });
            }
            i = i + 1;
        }
        assert(!self@.contains(path@)) by {
            if self@.contains(path@) {
                let j = choose|j: int| 0 <= j < self@.len() && self@[j] == path@;
                assert(self@[j] != path@);
            }
        }
        None
    }

    /// The id of `path`, allocating the next one if the path is new.
    pub fn get_or_create_id(&mut self, path: String) -> (r: ObjectPathId)
        requires
            old(self).wf(),
        ensures
            final(self).wf(),
            (final(self)@, r.id as int) == spec_intern(old(self)@, path@),
            r.id < final(self)@.len(),
            final(self)@[r.id as int] == path@,
    {
        let n = self.paths.len();
        let mut i: usize = 0;
        while i < n
            invariant
                n == self.paths.len(),
                i <= n,
                self@ == old(self)@,
                self.wf(),
                forall|k: int| 0 <= k < i ==> self@[k] != path@,
            decreases n - i,
        {
            if self.paths[i] == path {
                proof {
                    assert(self@[i as int] == self.paths@[i as int]@);
                    assert(self@.contains(path@));
                    let j = spec_position_of(self@, path@);
                    if j != i as int {
                        assert(self@[j] == self@[i as int]);
                    }
                }
                return ObjectPathId { id: i };
            }
            i = i + 1;
        }
        let ghost before = self@;
        self.paths.push(path);
        proof {
            assert(self@ =~= before.push(path@));
            assert(!before.contains(path@)) by {
                if before.contains(path@) {
                    let j = choose|j: int| 0 <= j < before.len() && before[j] == path@;
                    assert(before[j] != path@);
                }
            }
        }
        ObjectPathId { id: n }
    }
}

/// Interning is idempotent and injective: interning a path twice hands out the
/// same id and leaves the table as the first call left it, while two different
/// paths get different ids.
pub proof fn lemma_intern_idempotent_injective(paths: Seq<Seq<char>>, a: Seq<char>, b: Seq<char>)
    requires
        spec_distinct(paths),
    ensures
        spec_distinct(spec_intern(paths, a).0),
        a == b ==> spec_intern(spec_intern(paths, a).0, b) == spec_intern(paths, a),
        a != b ==> spec_intern(spec_intern(paths, a).0, b).1 != spec_intern(paths, a).1,
{
    let (once, first_id) = spec_intern(paths, a);
    assert(once.contains(a) && 0 <= first_id < once.len() && once[first_id] == a) by {
        if paths.contains(a) {
            let j = choose|j: int| 0 <= j < paths.len() && paths[j] == a;
            assert(paths[j] == a);
        } else {
            assert(once[paths.len() as int] == a);
        }
    }
    assert(spec_distinct(once)) by {
        if !paths.contains(a) {
            assert forall|i: int, j: int|
                0 <= i < once.len() && 0 <= j < once.len() && i != j implies once[i] != once[j] by {
                if i == paths.len() && j < paths.len() {
                    assert(paths.contains(paths[j]));
                }
                if j == paths.len() && i < paths.len() {
                    assert(paths.contains(paths[i]));
                }
            }
        }
    }
    let (twice, second_id) = spec_intern(once, b);
    if a == b {
        let j = spec_position_of(once, b);
        assert(once[j] == once[first_id]);
    } else {
        assert(0 <= second_id < twice.len() && twice[second_id] == b) by {
            if once.contains(b) {
                let j = choose|j: int| 0 <= j < once.len() && once[j] == b;
                assert(once[j] == b);
            }
        }
        if second_id == first_id {
            assert(twice[first_id] == once[first_id]);
        }
    }
}

} // verus!
