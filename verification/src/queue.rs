//! The cell store shared by the body and the food: an ordered sequence of
//! grid cells, head first, kept in lockstep with a hash set of the same cells
//! so that membership tests take constant time.
//!
//! Callers only ever `push` a cell that is not already present and `pop` the
//! tail, so at every call boundary the sequence has no duplicates and the set
//! holds exactly the cells of the sequence.

use std::collections::HashSet;
use vstd::prelude::*;

verus! {

broadcast use {vstd::seq_lib::group_seq_properties, vstd::std_specs::hash::group_hash_axioms};

/// The key under which a cell is stored in the membership set: the two
/// coordinates packed into one `u32`.
pub open spec fn point_key_spec(point: (u16, u16)) -> u32 {
    (point.0 * 0x10000 + point.1) as u32
}

fn point_key(point: &(u16, u16)) -> (k: u32)
    ensures
        k == point_key_spec(*point),
{
    (point.0 as u32) * 0x10000 + (point.1 as u32)
}

/// Distinct cells are stored under distinct keys.
pub proof fn lemma_point_key_injective(a: (u16, u16), b: (u16, u16))
    requires
        point_key_spec(a) == point_key_spec(b),
    ensures
        a == b,
{
    assert(a.0 * 0x10000 + a.1 == b.0 * 0x10000 + b.1);
    assert(a.0 == b.0 && a.1 == b.1) by (nonlinear_arith)
        requires
            a.0 * 0x10000 + a.1 == b.0 * 0x10000 + b.1,
            a.1 < 0x10000,
            b.1 < 0x10000,
    ;
    assert(a == (a.0, a.1));
    assert(b == (b.0, b.1));
}

/// An ordered queue of grid cells with a constant-time membership test.
///
/// The head of the queue sits at index 0 of the sequence; the membership set
/// mirrors the sequence's contents cell for cell.
#[derive(Debug)]
pub struct LookupPointQueue {
    vec: Vec<(u16, u16)>,
    hash: HashSet<u32>,
}

impl View for LookupPointQueue {
    type V = Seq<(u16, u16)>;

    closed spec fn view(&self) -> Seq<(u16, u16)> {
        self.vec@
    }
}

impl LookupPointQueue {
    /// The keys held by the membership set.
    pub closed spec fn key_set(self) -> Set<u32> {
        self.hash@
    }

    /// The sequence holds no cell twice, and the membership set holds exactly
    /// the keys of the cells in the sequence.
    pub closed spec fn wf(self) -> bool {
        &&& self@.no_duplicates()
        &&& forall|p: (u16, u16)|
            #![trigger self@.contains(p)]
            #![trigger self.hash@.contains(point_key_spec(p))]
            self.hash@.contains(point_key_spec(p)) <==> self@.contains(p)
    }

    /// Builds a queue holding `points` in their given order, filling the
    /// membership set from the same cells.
    pub fn new(points: &Vec<(u16, u16)>) -> (r: Self)
        requires
            points@.no_duplicates(),
        ensures
            r.wf(),
            r@ == points@,
    {
        let mut vec: Vec<(u16, u16)> = Vec::new();
        let mut hash: HashSet<u32> = HashSet::new();
        let mut i: usize = 0;
        while i < points.len()
            invariant
                i <= points.len(),
                vec@ == points@.take(i as int),
                forall|p: (u16, u16)|
                    #![trigger vec@.contains(p)]
                    #![trigger hash@.contains(point_key_spec(p))]
                    hash@.contains(point_key_spec(p)) <==> vec@.contains(p),
            decreases points.len() - i,
        {
            let p = points[i];
            vec.push(p);
            hash.insert(point_key(&p));
            proof {
                assert(vec@ =~= points@.take(i + 1));
                assert forall|q: (u16, u16)|
                    hash@.contains(point_key_spec(q)) <==> vec@.contains(q) by {
                    if point_key_spec(q) == point_key_spec(p) {
                        lemma_point_key_injective(q, p);
                    }
                }
            }
            i += 1;
        }
        proof {
            assert(vec@ =~= points@);
        }
        Self { vec, hash }
    }

    /// Constant-time membership test: true iff `point` is in the queue.
    pub fn lookup(&self, point: &(u16, u16)) -> (r: bool)
        requires
            self.wf(),
        ensures
            r == self@.contains(*point),
    {
        self.hash.contains(&point_key(point))
    }

    /// The cell at the head of the queue, or nothing if the queue is empty.
    pub fn head(&self) -> (r: Option<(u16, u16)>)
        ensures
            self@.len() == 0 ==> r is None,
            self@.len() > 0 ==> r == Some(self@[0]),
    {
        if self.vec.len() == 0 {
            None
        } else {
            Some(self.vec[0])
        }
    }

    /// The number of cells in the queue.
    pub fn len(&self) -> (n: usize)
        ensures
            n == self@.len(),
    {
        self.vec.len()
    }

    /// The cell at position `i`, counting from the head.
    pub fn get(&self, i: usize) -> (r: (u16, u16))
        requires
            i < self@.len(),
        ensures
            r == self@[i as int],
    {
        self.vec[i]
    }

    /// Inserts a cell, not yet present, at the head of the queue and into the
    /// membership set.
    pub fn push(&mut self, point: &(u16, u16))
        requires
            old(self).wf(),
            !old(self)@.contains(*point),
        ensures
            final(self).wf(),
            final(self)@ == old(self)@.insert(0, *point),
    {
        proof {
            lemma_prepend_contains_all(old(self)@, *point);
            lemma_prepend_no_duplicates(old(self)@, *point);
        }
        self.vec.insert(0, *point);
        self.hash.insert(point_key(point));
        proof {
            assert forall|q: (u16, u16)|
                self.hash@.contains(point_key_spec(q)) <==> self@.contains(q) by {
                if point_key_spec(q) == point_key_spec(*point) {
                    lemma_point_key_injective(q, *point);
                }
            }
        }
    }

    /// Removes and returns the tail cell, dropping it from the membership set
    /// as well; returns nothing if the queue is empty.
    pub fn pop(&mut self) -> (r: Option<(u16, u16)>)
        requires
            old(self).wf(),
        ensures
            final(self).wf(),
            old(self)@.len() == 0 ==> r is None && final(self)@ == old(self)@,
            old(self)@.len() > 0 ==> r == Some(old(self)@.last()) && final(self)@ == old(
                self,
            )@.drop_last(),
    {
        let popped = self.vec.pop();
        match popped {
            None => None,
            Some(p) => {
                proof {
                    lemma_drop_last_contains_all(old(self)@);
                }
                self.hash.remove(&point_key(&p));
                proof {
                    assert forall|q: (u16, u16)|
                        self.hash@.contains(point_key_spec(q)) <==> self@.contains(q) by {
                        if point_key_spec(q) == point_key_spec(p) {
                            lemma_point_key_injective(q, p);
                        }
                    }
                }
                Some(p)
            },
        }
    }
}

/// After inserting `p` at the front, a queue contains exactly `p` and what it
/// contained before.
pub(crate) proof fn lemma_prepend_contains_all(s: Seq<(u16, u16)>, p: (u16, u16))
    ensures
        forall|q: (u16, u16)| #[trigger]
            s.insert(0, p).contains(q) <==> (q == p || s.contains(q)),
{
    s.insert_ensures(0, p);
    let t = s.insert(0, p);
    assert forall|q: (u16, u16)| #[trigger] t.contains(q) <==> (q == p || s.contains(q)) by {
        if t.contains(q) {
            let j = choose|j: int| 0 <= j < t.len() && t[j] == q;
            if j > 0 {
                assert(t[j] == s[j - 1]);
                assert(s.contains(q));
            }
        }
        if q == p {
            assert(t[0] == q);
            assert(t.contains(q));
        }
        if s.contains(q) {
            let i = choose|i: int| 0 <= i < s.len() && s[i] == q;
            assert(t[i + 1] == q);
            assert(t.contains(q));
        }
    }
}

/// Inserting a fresh cell at the front keeps the sequence free of duplicates.
pub(crate) proof fn lemma_prepend_no_duplicates(s: Seq<(u16, u16)>, p: (u16, u16))
    requires
        s.no_duplicates(),
        !s.contains(p),
    ensures
        s.insert(0, p).no_duplicates(),
{
    s.insert_ensures(0, p);
    let t = s.insert(0, p);
    assert forall|i: int, j: int|
        0 <= i < t.len() && 0 <= j < t.len() && i != j implies t[i] != t[j] by {
        if i == 0 && j > 0 {
            assert(t[j] == s[j - 1]);
            assert(s.contains(s[j - 1]));
        } else if j == 0 && i > 0 {
            assert(t[i] == s[i - 1]);
            assert(s.contains(s[i - 1]));
        } else if i > 0 && j > 0 {
            assert(t[i] == s[i - 1]);
            assert(t[j] == s[j - 1]);
        }
    }
}

/// Dropping the last cell of a duplicate-free sequence removes exactly that
/// cell from the contents.
pub(crate) proof fn lemma_drop_last_contains_all(s: Seq<(u16, u16)>)
    requires
        s.len() > 0,
        s.no_duplicates(),
    ensures
        forall|q: (u16, u16)| #[trigger]
            s.drop_last().contains(q) <==> (s.contains(q) && q != s.last()),
{
    let t = s.drop_last();
    assert forall|q: (u16, u16)| #[trigger] t.contains(q) <==> (s.contains(q) && q != s.last()) by {
        if t.contains(q) {
            let j = choose|j: int| 0 <= j < t.len() && t[j] == q;
            assert(s[j] == q);
            assert(s.contains(q));
            assert(s[j] != s[s.len() - 1]);
        }
        if s.contains(q) && q != s.last() {
            let i = choose|i: int| 0 <= i < s.len() && s[i] == q;
            assert(i != s.len() - 1);
            assert(t[i] == q);
            assert(t.contains(q));
        }
    }
}

/// Law: in a well-formed queue the membership set holds exactly one key per
/// cell of the sequence, so its cardinality equals the sequence's length, and
/// no cell appears twice in the sequence.
pub proof fn lemma_len_eq_card(q: LookupPointQueue)
    requires
        q.wf(),
    ensures
        q.key_set().len() == q@.len(),
        q@.no_duplicates(),
{
    let keyfn = |p: (u16, u16)| point_key_spec(p);
    let keys = q@.map_values(keyfn);
    assert forall|k: u32| #[trigger] q.key_set().contains(k) implies keys.to_set().contains(k) by {
        let pk = (((k / 0x10000) as u16), ((k % 0x10000) as u16));
        assert(point_key_spec(pk) == k);
        assert(q@.contains(pk));
        let i = choose|i: int| 0 <= i < q@.len() && q@[i] == pk;
        assert(keys[i] == k);
        assert(keys.contains(k));
    }
    assert forall|k: u32| #[trigger] keys.to_set().contains(k) implies q.key_set().contains(k) by {
        let i = choose|i: int| 0 <= i < keys.len() && keys[i] == k;
        assert(q@.contains(q@[i]));
        assert(point_key_spec(q@[i]) == k);
    }
    assert(q.key_set() =~= keys.to_set());
    assert(vstd::relations::injective(keyfn)) by {
        assert forall|a: (u16, u16), b: (u16, u16)| #[trigger]
            keyfn(a) == #[trigger] keyfn(b) implies a == b by {
            lemma_point_key_injective(a, b);
        }
    }
    q@.lemma_no_duplicates_injective(keyfn);
    keys.unique_seq_to_set();
}

} // verus!
