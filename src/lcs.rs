//! Longest-common-subsequence alignment of two sequences.

use vstd::prelude::*;

verus! {

/// Values that can be compared for exact equality of their views.
pub trait Token: View {
    fn same_as(&self, other: &Self) -> (r: bool)
        ensures
            r == (self@ == other@),
    ;
}

impl Token for String {
    fn same_as(&self, other: &Self) -> (r: bool) {
        *self == *other
    }
}

impl Token for i32 {
    fn same_as(&self, other: &Self) -> (r: bool) {
        *self == *other
    }
}

/// One step of an alignment.
#[derive(Debug)]
pub enum DiffOp<T> {
    Equal(T),
    Remove(T),
    Add(T),
}

pub open spec fn views<T: View>(s: Seq<T>) -> Seq<T::V> {
    s.map_values(|x: T| x@)
}

pub open spec fn op_view<T: View>(op: DiffOp<&T>) -> DiffOp<T::V> {
    match op {
        DiffOp::Equal(x) => DiffOp::Equal(x@),
        DiffOp::Remove(x) => DiffOp::Remove(x@),
        DiffOp::Add(x) => DiffOp::Add(x@),
    }
}

pub open spec fn ops_view<T: View>(ops: Seq<DiffOp<&T>>) -> Seq<DiffOp<T::V>> {
    ops.map_values(|op: DiffOp<&T>| op_view(op))
}

/// Length of the longest common subsequence of `a[..i]` and `b[..j]`.
pub open spec fn lcs_len<A>(a: Seq<A>, b: Seq<A>, i: nat, j: nat) -> nat
    decreases i + j,
{
    if i == 0 || j == 0 {
        0
    } else if a[i - 1] == b[j - 1] {
        lcs_len(a, b, (i - 1) as nat, (j - 1) as nat) + 1
    } else {
        let up = lcs_len(a, b, (i - 1) as nat, j);
        let left = lcs_len(a, b, i, (j - 1) as nat);
        if up >= left { up } else { left }
    }
}

/// The alignment of `a[..i]` with `b[..j]` read back from the table: equal
/// elements first, then additions whenever they keep the common part as long,
/// then removals.
pub open spec fn backtrack<A>(a: Seq<A>, b: Seq<A>, i: nat, j: nat) -> Seq<DiffOp<A>>
    decreases i + j,
{
    if i == 0 && j == 0 {
        seq![]
    } else if i > 0 && j > 0 && a[i - 1] == b[j - 1] {
        backtrack(a, b, (i - 1) as nat, (j - 1) as nat).push(DiffOp::Equal(a[i - 1]))
    } else if j > 0 && (i == 0 || lcs_len(a, b, i, (j - 1) as nat) >= lcs_len(
        a,
        b,
        (i - 1) as nat,
        j,
    )) {
        backtrack(a, b, i, (j - 1) as nat).push(DiffOp::Add(b[j - 1]))
    } else {
        backtrack(a, b, (i - 1) as nat, j).push(DiffOp::Remove(a[i - 1]))
    }
}

/// The elements that an alignment keeps from the old side.
pub open spec fn olds<A>(ops: Seq<DiffOp<A>>) -> Seq<A>
    decreases ops.len(),
{
    if ops.len() == 0 {
        seq![]
    } else {
        let rest = olds(ops.drop_last());
        match ops.last() {
            DiffOp::Equal(x) => rest.push(x),
            DiffOp::Remove(x) => rest.push(x),
            DiffOp::Add(_) => rest,
        }
    }
}

/// The elements that an alignment keeps from the new side.
pub open spec fn news<A>(ops: Seq<DiffOp<A>>) -> Seq<A>
    decreases ops.len(),
{
    if ops.len() == 0 {
        seq![]
    } else {
        let rest = news(ops.drop_last());
        match ops.last() {
            DiffOp::Equal(x) => rest.push(x),
            DiffOp::Add(x) => rest.push(x),
            DiffOp::Remove(_) => rest,
        }
    }
}

pub proof fn lemma_lcs_len_bounded<A>(a: Seq<A>, b: Seq<A>, i: nat, j: nat)
    ensures
        lcs_len(a, b, i, j) <= i,
        lcs_len(a, b, i, j) <= j,
    decreases i + j,
{
    if i > 0 && j > 0 {
        lemma_lcs_len_bounded(a, b, (i - 1) as nat, (j - 1) as nat);
        lemma_lcs_len_bounded(a, b, (i - 1) as nat, j);
        lemma_lcs_len_bounded(a, b, i, (j - 1) as nat);
    }
}

/// An alignment lists the old elements (`Equal` and `Remove`) and the new
/// elements (`Equal` and `Add`) each in their order, none left out.
pub proof fn lemma_backtrack_reconstructs<A>(a: Seq<A>, b: Seq<A>, i: nat, j: nat)
    requires
        i <= a.len(),
        j <= b.len(),
    ensures
        olds(backtrack(a, b, i, j)) == a.take(i as int),
        news(backtrack(a, b, i, j)) == b.take(j as int),
    decreases i + j,
{
    if i == 0 && j == 0 {
        assert(a.take(0) =~= seq![]);
        assert(b.take(0) =~= seq![]);
    } else if i > 0 && j > 0 && a[i - 1] == b[j - 1] {
        let prev = backtrack(a, b, (i - 1) as nat, (j - 1) as nat);
        lemma_backtrack_reconstructs(a, b, (i - 1) as nat, (j - 1) as nat);
        assert(prev.push(DiffOp::Equal(a[i - 1])).drop_last() =~= prev);
        assert(a.take(i - 1).push(a[i - 1]) =~= a.take(i as int));
        assert(b.take(j - 1).push(b[j - 1]) =~= b.take(j as int));
    } else if j > 0 && (i == 0 || lcs_len(a, b, i, (j - 1) as nat) >= lcs_len(
        a,
        b,
        (i - 1) as nat,
        j,
    )) {
        let prev = backtrack(a, b, i, (j - 1) as nat);
        lemma_backtrack_reconstructs(a, b, i, (j - 1) as nat);
        assert(prev.push(DiffOp::Add(b[j - 1])).drop_last() =~= prev);
        assert(b.take(j - 1).push(b[j - 1]) =~= b.take(j as int));
    } else {
        let prev = backtrack(a, b, (i - 1) as nat, j);
        lemma_backtrack_reconstructs(a, b, (i - 1) as nat, j);
        assert(prev.push(DiffOp::Remove(a[i - 1])).drop_last() =~= prev);
        assert(a.take(i - 1).push(a[i - 1]) =~= a.take(i as int));
    }
}

/// Fill the LCS table: `table[i][j]` is the length of the longest common
/// subsequence of `old[..i]` and `new[..j]`.
fn lcs_table<T: Token>(old: &[T], new: &[T]) -> (table: Vec<Vec<usize>>)
    ensures
        table.len() == old.len() + 1,
        forall|i: int| #![auto] 0 <= i < table.len() ==> table[i].len() == new.len() + 1,
        forall|i: int, j: int|
            0 <= i <= old.len() && 0 <= j <= new.len() ==> #[trigger] table[i][j] == lcs_len(
                views(old@),
                views(new@),
                i as nat,
                j as nat,
            ),
{
    let ghost a = views(old@);
    let ghost b = views(new@);
    let m = old.len();
    let n = new.len();
    let mut table: Vec<Vec<usize>> = Vec::new();
    let mut first: Vec<usize> = Vec::new();
    first.push(0);
    let mut j: usize = 0;
    while j < n
        invariant
            j <= n,
            n == new.len(),
            first.len() == j + 1,
            forall|c: int| 0 <= c <= j ==> #[trigger] first[c] == 0,
        decreases n - j,
    {
        first.push(0);
        j = j + 1;
    }
    table.push(first);
    let mut done: usize = 0;
    while done < m
        invariant
            done <= m,
            m == old.len(),
            n == new.len(),
            a == views(old@),
            b == views(new@),
            table.len() == done + 1,
            forall|r: int| #![auto] 0 <= r <= done ==> table[r].len() == n + 1,
            forall|r: int, c: int|
                0 <= r <= done && 0 <= c <= n ==> #[trigger] table[r][c] == lcs_len(
                    a,
                    b,
                    r as nat,
                    c as nat,
                ),
        decreases m - done,
    {
        let i = done + 1;
        let mut row: Vec<usize> = Vec::new();
        row.push(0);
        let mut filled: usize = 0;
        while filled < n
            invariant
                1 <= i <= m,
                i == done + 1,
                filled <= n,
                m == old.len(),
                n == new.len(),
                a == views(old@),
                b == views(new@),
                table.len() == i,
                row.len() == filled + 1,
                forall|r: int| #![auto] 0 <= r < i ==> table[r].len() == n + 1,
                forall|r: int, c: int|
                    0 <= r < i && 0 <= c <= n ==> #[trigger] table[r][c] == lcs_len(
                        a,
                        b,
                        r as nat,
                        c as nat,
                    ),
                forall|c: int| 0 <= c <= filled ==> #[trigger] row[c] == lcs_len(a, b, i as nat, c as nat),
            decreases n - filled,
        {
            let j = filled + 1;
            proof {
                lemma_lcs_len_bounded(a, b, (i - 1) as nat, (j - 1) as nat);
            }
            let v: usize;
            if old[i - 1].same_as(&new[j - 1]) {
                v = table[i - 1][j - 1] + 1;
            } else {
                let up = table[i - 1][j];
                let left = row[j - 1];
                v = if up >= left { up } else { left };
            }
            row.push(v);
            filled = filled + 1;
        }
        table.push(row);
        done = done + 1;
    }
    table
}

/// Align `old` with `new` along a longest common subsequence. Reading the
/// table back from the end, equal elements are taken first, then an addition
/// whenever it keeps the common part as long as a removal would; so a removal
/// is listed before the addition that replaces it.
pub fn diff_sequences<'a, T: Token>(old: &'a [T], new: &'a [T]) -> (ops: Vec<DiffOp<&'a T>>)
    ensures
        ops_view(ops@) == backtrack(views(old@), views(new@), old@.len(), new@.len()),
        olds(ops_view(ops@)) == views(old@),
        news(ops_view(ops@)) == views(new@),
{
    let ghost a = views(old@);
    let ghost b = views(new@);
    let ghost full = backtrack(a, b, old@.len(), new@.len());
    let table = lcs_table(old, new);
    let mut rev: Vec<DiffOp<&'a T>> = Vec::new();
    let mut i: usize = old.len();
    let mut j: usize = new.len();
    while i > 0 || j > 0
        invariant
            i <= old.len(),
            j <= new.len(),
            a == views(old@),
            b == views(new@),
            full == backtrack(a, b, old@.len(), new@.len()),
            table.len() == old.len() + 1,
            forall|r: int| #![auto] 0 <= r < table.len() ==> table[r].len() == new.len() + 1,
            forall|r: int, c: int|
                0 <= r <= old.len() && 0 <= c <= new.len() ==> #[trigger] table[r][c] == lcs_len(
                    a,
                    b,
                    r as nat,
                    c as nat,
                ),
            backtrack(a, b, i as nat, j as nat).len() + rev.len() == full.len(),
            full.take(backtrack(a, b, i as nat, j as nat).len() as int) == backtrack(
                a,
                b,
                i as nat,
                j as nat,
            ),
            forall|k: int|
                0 <= k < rev.len() ==> #[trigger] op_view(rev[k]) == full[full.len() - 1 - k],
        decreases i + j,
    {
        let ghost cur = backtrack(a, b, i as nat, j as nat);
        if i > 0 && j > 0 && old[i - 1].same_as(&new[j - 1]) {
            rev.push(DiffOp::Equal(&old[i - 1]));
            i = i - 1;
            j = j - 1;
        } else if j > 0 && (i == 0 || table[i][j - 1] >= table[i - 1][j]) {
            rev.push(DiffOp::Add(&new[j - 1]));
            j = j - 1;
        } else {
            rev.push(DiffOp::Remove(&old[i - 1]));
            i = i - 1;
        }
        proof {
            let next = backtrack(a, b, i as nat, j as nat);
            assert(cur == next.push(op_view(rev[rev.len() - 1])));
            assert(full[full.len() - 1 - (rev.len() - 1)] == full[cur.len() - 1]);
            assert(full.take(cur.len() as int)[cur.len() - 1] == full[cur.len() - 1]);
            assert(full.take(next.len() as int) =~= cur.take(next.len() as int));
            assert(cur.take(next.len() as int) =~= next);
        }
    }
    let mut ops: Vec<DiffOp<&'a T>> = Vec::new();
    let mut k: usize = rev.len();
    while k > 0
        invariant
            k <= rev.len(),
            rev.len() == full.len(),
            forall|q: int| 0 <= q < rev.len() ==> #[trigger] op_view(rev[q]) == full[full.len() - 1 - q],
            ops.len() + k == rev.len(),
            forall|q: int| 0 <= q < ops.len() ==> #[trigger] op_view(ops[q]) == full[q],
        decreases k,
    {
        k = k - 1;
        let op = match &rev[k] {
            DiffOp::Equal(x) => DiffOp::Equal(*x),
            DiffOp::Remove(x) => DiffOp::Remove(*x),
            DiffOp::Add(x) => DiffOp::Add(*x),
        };
        ops.push(op);
    }
    proof {
        assert(ops_view(ops@) =~= full);
        lemma_backtrack_reconstructs(a, b, old@.len(), new@.len());
        assert(a.take(old@.len() as int) =~= a);
        assert(b.take(new@.len() as int) =~= b);
    }
    ops
}

} // verus!
