use vstd::prelude::*;
use vstd::multiset::Multiset;
use vstd::string::StrSliceExecFns;
use crate::models::{Exercise, WorkoutSet};
use crate::store::{SessionExerciseRow, SessionRow, TemplateExerciseRow, TemplateRow};

verus! {

// Query results are displayed in an order: catalogs by name (code-point
// order, as a byte-wise comparison of UTF-8 text gives), session lists by
// start time descending, nested rows by position or set number. Ties on
// the primary key are broken by id so that every order below is total.

/// Lexicographic order on character sequences by code point.
pub open spec fn lex_le(a: Seq<char>, b: Seq<char>) -> bool
    decreases a.len(),
{
    if a.len() == 0 {
        true
    } else if b.len() == 0 {
        false
    } else if (a[0] as u32) != (b[0] as u32) {
        (a[0] as u32) < (b[0] as u32)
    } else {
        lex_le(a.drop_first(), b.drop_first())
    }
}

/// Any two character sequences compare in at least one direction.
pub proof fn lemma_lex_le_total(a: Seq<char>, b: Seq<char>)
    ensures
        lex_le(a, b) || lex_le(b, a),
    decreases a.len(),
{
    if a.len() == 0 {
    } else if b.len() == 0 {
    } else if (a[0] as u32) != (b[0] as u32) {
    } else {
        lemma_lex_le_total(a.drop_first(), b.drop_first());
    }
}

/// `lex_le` is transitive.
pub proof fn lemma_lex_le_trans(a: Seq<char>, b: Seq<char>, c: Seq<char>)
    requires
        lex_le(a, b),
        lex_le(b, c),
    ensures
        lex_le(a, c),
    decreases a.len(),
{
    if a.len() == 0 {
    } else {
        if b.len() == 0 {
        } else if c.len() == 0 {
        } else {
            if (a[0] as u32) == (b[0] as u32) && (b[0] as u32) == (c[0] as u32) {
                lemma_lex_le_trans(a.drop_first(), b.drop_first(), c.drop_first());
            }
        }
    }
}

/// Compares two strings in code-point order.
pub fn str_lex_le(a: &str, b: &str) -> (r: bool)
    ensures
        r == lex_le(a@, b@),
    decreases a@.len(),
{
    let an = a.unicode_len();
    let bn = b.unicode_len();
    if an == 0 {
        true
    } else if bn == 0 {
        false
    } else {
        let ca = a.get_char(0) as u32;
        let cb = b.get_char(0) as u32;
        if ca != cb {
            ca < cb
        } else {
            let ra = a.substring_char(1, an);
            let rb = b.substring_char(1, bn);
            proof {
                assert(ra@ =~= a@.drop_first());
                assert(rb@ =~= b@.drop_first());
            }
            str_lex_le(ra, rb)
        }
    }
}

/// A row type with the total pre-order its query results are displayed in.
pub trait RowOrd: Sized {
    /// `self` sorts no later than `other`.
    spec fn le(self, other: Self) -> bool;

    /// The order relates any two rows.
    proof fn lemma_le_total(a: Self, b: Self)
        ensures
            a.le(b) || b.le(a),
    ;

    /// The order is transitive.
    proof fn lemma_le_trans(a: Self, b: Self, c: Self)
        requires
            a.le(b),
            b.le(c),
        ensures
            a.le(c),
    ;

    /// Decides `le`.
    fn le_exec(&self, other: &Self) -> (r: bool)
        ensures
            r == self.le(*other),
    ;
}

/// `s` is ordered by `le`.
pub open spec fn sorted<T: RowOrd>(s: Seq<T>) -> bool {
    forall|i: int, j: int| 0 <= i < j < s.len() ==> #[trigger] s[i].le(s[j])
}

/// Sorts the rows: the result is an ordered permutation of the input.
pub fn sort_rows<T: RowOrd>(v: Vec<T>) -> (r: Vec<T>)
    ensures
        r@.to_multiset() == v@.to_multiset(),
        sorted(r@),
        r@.len() == v@.len(),
{
    broadcast use vstd::seq_lib::group_to_multiset_ensures;

    let ghost orig = v@;
    let mut rest = v;
    let mut out: Vec<T> = Vec::new();
    proof {
        assert(out@.to_multiset().add(rest@.to_multiset()) =~= orig.to_multiset());
    }
    while rest.len() > 0
        invariant
            out@.to_multiset().add(rest@.to_multiset()) == orig.to_multiset(),
            sorted(out@),
            forall|i: int, j: int|
                0 <= i < out@.len() && 0 <= j < rest@.len() ==> #[trigger] out@[i].le(rest@[j]),
            out@.len() + rest@.len() == orig.len(),
        decreases rest.len(),
    {
        let mut m: usize = 0;
        let mut k: usize = 1;
        proof {
            T::lemma_le_total(rest@[0], rest@[0]);
        }
        while k < rest.len()
            invariant
                m < k <= rest@.len(),
                forall|j: int| 0 <= j < k ==> rest@[m as int].le(#[trigger] rest@[j]),
            decreases rest.len() - k,
        {
            if rest[k].le_exec(&rest[m]) {
                proof {
                    assert forall|j: int| 0 <= j < k + 1 implies rest@[k as int].le(
                        #[trigger] rest@[j],
                    ) by {
                        if j < k {
                            T::lemma_le_trans(rest@[k as int], rest@[m as int], rest@[j]);
                        } else {
                            T::lemma_le_total(rest@[k as int], rest@[k as int]);
                        }
                    }
                }
                m = k;
            } else {
                proof {
                    T::lemma_le_total(rest@[m as int], rest@[k as int]);
                }
            }
            k += 1;
        }
        let ghost old_out = out@;
        let ghost old_rest = rest@;
        let x = rest.remove(m);
        out.push(x);
        proof {
            old_out.to_multiset_ensures();
            old_rest.to_multiset_ensures();
            assert(old_rest[m as int] == x);
            assert(old_rest.contains(x));
            assert(old_rest.to_multiset().contains(x));
            assert(out@.to_multiset().add(rest@.to_multiset()) =~= orig.to_multiset()) by {
                assert(out@.to_multiset() =~= old_out.to_multiset().insert(x));
                assert(rest@.to_multiset() =~= old_rest.to_multiset().remove(x));
            }
            assert(sorted(out@)) by {
                assert forall|i: int, j: int| 0 <= i < j < out@.len() implies #[trigger] out@[i].le(
                    out@[j],
                ) by {
                    if j < out@.len() - 1 {
                        assert(old_out[i].le(old_out[j]));
                    } else {
                        assert(old_out[i].le(old_rest[m as int]));
                    }
                }
            }
            assert forall|i: int, j: int|
                0 <= i < out@.len() && 0 <= j < rest@.len() implies #[trigger] out@[i].le(
                rest@[j],
            ) by {
                let j0 = if j < m { j } else { j + 1 };
                assert(rest@[j] == old_rest[j0]);
                if i < out@.len() - 1 {
                    assert(old_out[i].le(old_rest[j0]));
                } else {
                    assert(out@[i] == x);
                    assert(old_rest[m as int].le(old_rest[j0]));
                }
            }
        }
    }
    proof {
        assert(rest@.to_multiset() =~= Multiset::empty());
        assert(out@.to_multiset() =~= orig.to_multiset());
        assert(out@.to_multiset().len() == orig.to_multiset().len());
    }
    out
}

// ── Display orders of the row types ──

impl RowOrd for Exercise {
    open spec fn le(self, other: Self) -> bool {
        lex_le(self.name@, other.name@)
    }

    proof fn lemma_le_total(a: Self, b: Self) {
        lemma_lex_le_total(a.name@, b.name@);
    }

    proof fn lemma_le_trans(a: Self, b: Self, c: Self) {
        lemma_lex_le_trans(a.name@, b.name@, c.name@);
    }

    fn le_exec(&self, other: &Self) -> bool {
        str_lex_le(self.name.as_str(), other.name.as_str())
    }
}

impl RowOrd for TemplateRow {
    open spec fn le(self, other: Self) -> bool {
        lex_le(self.name@, other.name@)
    }

    proof fn lemma_le_total(a: Self, b: Self) {
        lemma_lex_le_total(a.name@, b.name@);
    }

    proof fn lemma_le_trans(a: Self, b: Self, c: Self) {
        lemma_lex_le_trans(a.name@, b.name@, c.name@);
    }

    fn le_exec(&self, other: &Self) -> bool {
        str_lex_le(self.name.as_str(), other.name.as_str())
    }
}

impl RowOrd for SessionRow {
    /// Most recently started first; ties broken by newest id.
    open spec fn le(self, other: Self) -> bool {
        self.started_at > other.started_at || (self.started_at == other.started_at && self.id
            >= other.id)
    }

    proof fn lemma_le_total(a: Self, b: Self) {
    }

    proof fn lemma_le_trans(a: Self, b: Self, c: Self) {
    }

    fn le_exec(&self, other: &Self) -> bool {
        self.started_at > other.started_at || (self.started_at == other.started_at && self.id
            >= other.id)
    }
}

impl RowOrd for SessionExerciseRow {
    /// Ascending by position; ties broken by oldest id.
    open spec fn le(self, other: Self) -> bool {
        self.position < other.position || (self.position == other.position && self.id <= other.id)
    }

    proof fn lemma_le_total(a: Self, b: Self) {
    }

    proof fn lemma_le_trans(a: Self, b: Self, c: Self) {
    }

    fn le_exec(&self, other: &Self) -> bool {
        self.position < other.position || (self.position == other.position && self.id <= other.id)
    }
}

impl RowOrd for TemplateExerciseRow {
    /// Ascending by position; ties broken by oldest id.
    open spec fn le(self, other: Self) -> bool {
        self.position < other.position || (self.position == other.position && self.id <= other.id)
    }

    proof fn lemma_le_total(a: Self, b: Self) {
    }

    proof fn lemma_le_trans(a: Self, b: Self, c: Self) {
    }

    fn le_exec(&self, other: &Self) -> bool {
        self.position < other.position || (self.position == other.position && self.id <= other.id)
    }
}

impl RowOrd for WorkoutSet {
    /// Ascending by set number; ties broken by oldest id.
    open spec fn le(self, other: Self) -> bool {
        self.set_number < other.set_number || (self.set_number == other.set_number && self.id
            <= other.id)
    }

    proof fn lemma_le_total(a: Self, b: Self) {
    }

    proof fn lemma_le_trans(a: Self, b: Self, c: Self) {
    }

    fn le_exec(&self, other: &Self) -> bool {
        self.set_number < other.set_number || (self.set_number == other.set_number && self.id
            <= other.id)
    }
}

} // verus!
