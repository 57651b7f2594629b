//! Which operations a set of results or witnesses covers: sorted, distinct
//! operation names.
use vstd::prelude::*;
use crate::amos::{InvokeResult, Operation};
use crate::explore::ExplorationResult;
use crate::generation::GeneratedOperation;

verus! {

/// Lexicographic order on characters, as `String`'s order is on UTF-8 text.
pub open spec fn lex_lt(a: Seq<char>, b: Seq<char>) -> bool
    decreases a.len(),
{
    if a.len() == 0 {
        b.len() > 0
    } else if b.len() == 0 {
        false
    } else if a[0] != b[0] {
        (a[0] as int) < (b[0] as int)
    } else {
        lex_lt(a.drop_first(), b.drop_first())
    }
}

pub proof fn lemma_lex_irreflexive(a: Seq<char>)
    ensures
        !lex_lt(a, a),
    decreases a.len(),
{
    if a.len() > 0 {
        lemma_lex_irreflexive(a.drop_first());
    }
}

pub proof fn lemma_lex_transitive(a: Seq<char>, b: Seq<char>, c: Seq<char>)
    requires
        lex_lt(a, b),
        lex_lt(b, c),
    ensures
        lex_lt(a, c),
    decreases a.len(),
{
    if a.len() > 0 && b.len() > 0 && c.len() > 0 && a[0] == b[0] && b[0] == c[0] {
        lemma_lex_transitive(a.drop_first(), b.drop_first(), c.drop_first());
    }
}

pub proof fn lemma_lex_total(a: Seq<char>, b: Seq<char>)
    ensures
        a == b || lex_lt(a, b) || lex_lt(b, a),
    decreases a.len(),
{
    if a.len() > 0 && b.len() > 0 {
        if a[0] == b[0] {
            lemma_lex_total(a.drop_first(), b.drop_first());
            if a.drop_first() == b.drop_first() {
                assert(a =~= seq![a[0]] + a.drop_first());
                assert(b =~= seq![b[0]] + b.drop_first());
            }
        } else {
            assert((a[0] as int) != (b[0] as int));
        }
    } else if a.len() == 0 && b.len() == 0 {
        assert(a =~= b);
    }
}

/// Strictly increasing: sorted, with no name twice.
pub open spec fn strictly_sorted(v: Seq<Seq<char>>) -> bool {
    forall|i: int, j: int| 0 <= i < j < v.len() ==> lex_lt(#[trigger] v[i], #[trigger] v[j])
}

fn lex_less(a: &str, b: &str) -> (r: bool)
    ensures
        r == lex_lt(a@, b@),
{
    let n = a.unicode_len();
    let m = b.unicode_len();
    let mut i: usize = 0;
    proof {
        assert(a@.subrange(0, n as int) =~= a@);
        assert(b@.subrange(0, m as int) =~= b@);
    }
    while i < n && i < m
        invariant
            n == a@.len(),
            m == b@.len(),
            i <= n,
            i <= m,
            forall|k: int| 0 <= k < i ==> a@[k] == b@[k],
            lex_lt(a@, b@) == lex_lt(a@.subrange(i as int, n as int), b@.subrange(i as int, m as int)),
        decreases n - i,
    {
        let x = a.get_char(i);
        let y = b.get_char(i);
        proof {
            let sa = a@.subrange(i as int, n as int);
            let sb = b@.subrange(i as int, m as int);
            assert(sa[0] == x && sb[0] == y);
            assert(sa.drop_first() =~= a@.subrange(i + 1, n as int));
            assert(sb.drop_first() =~= b@.subrange(i + 1, m as int));
        }
        if x != y {
            return (x as u32) < (y as u32);
        }
        i = i + 1;
    }
    proof {
        let sa = a@.subrange(i as int, n as int);
        let sb = b@.subrange(i as int, m as int);
        assert(sa.len() == 0 || sb.len() == 0);
    }
    i == n && i < m
}

/// Inserts `x` into a strictly sorted list, unless it is there already.
fn insert_sorted(v: &mut Vec<String>, x: String)
    requires
        strictly_sorted(old(v)@.map_values(|s: String| s@)),
    ensures
        strictly_sorted(final(v)@.map_values(|s: String| s@)),
        final(v)@.map_values(|s: String| s@).to_set() == old(v)@.map_values(|s: String| s@).to_set().insert(x@),
{
    let ghost old_v = v@.map_values(|s: String| s@);
    let mut p: usize = 0;
    while p < v.len() && lex_less(v[p].as_str(), x.as_str())
        invariant
            old_v == v@.map_values(|s: String| s@),
            strictly_sorted(old_v),
            p <= v@.len(),
            forall|k: int| 0 <= k < p ==> lex_lt(#[trigger] old_v[k], x@),
        decreases v@.len() - p,
    {
        proof {
            assert(old_v[p as int] == v@[p as int]@);
        }
        p = p + 1;
    }
    if p < v.len() && v[p] == x {
        proof {
            assert(old_v[p as int] == x@);
            assert(old_v.to_set().insert(x@) =~= old_v.to_set());
        }
        return;
    }
    proof {
        if p < old_v.len() {
            assert(old_v[p as int] == v@[p as int]@);
            lemma_lex_total(old_v[p as int], x@);
            assert(lex_lt(x@, old_v[p as int]));
        }
    }
    v.insert(p, x);
    proof {
        let nv = v@.map_values(|s: String| s@);
        assert(nv =~= old_v.insert(p as int, x@));
        assert forall|i: int, j: int| 0 <= i < j < nv.len() implies lex_lt(#[trigger] nv[i], #[trigger] nv[j]) by {
            if j < p {
                assert(nv[i] == old_v[i] && nv[j] == old_v[j]);
            } else if j == p {
                assert(nv[i] == old_v[i]);
            } else if i == p {
                assert(nv[j] == old_v[j - 1]);
                if j - 1 > p {
                    assert(lex_lt(old_v[p as int], old_v[j - 1]));
                    lemma_lex_transitive(x@, old_v[p as int], old_v[j - 1]);
                }
            } else if i < p {
                assert(nv[i] == old_v[i] && nv[j] == old_v[j - 1]);
                if j - 1 == p {
                    assert(lex_lt(old_v[i], x@));
                    lemma_lex_transitive(old_v[i], x@, old_v[p as int]);
                } else {
                    assert(lex_lt(old_v[i], old_v[j - 1]));
                }
            } else {
                assert(nv[i] == old_v[i - 1] && nv[j] == old_v[j - 1]);
            }
        }
        assert forall|y: Seq<char>| nv.to_set().contains(y) == old_v.to_set().insert(x@).contains(y) by {
            if nv.to_set().contains(y) {
                let i = choose|i: int| 0 <= i < nv.len() && nv[i] == y;
                if i < p {
                    assert(old_v[i] == y);
                } else if i > p {
                    assert(old_v[i - 1] == y);
                }
            }
            if old_v.to_set().contains(y) {
                let i = choose|i: int| 0 <= i < old_v.len() && old_v[i] == y;
                if i < p {
                    assert(nv[i] == y);
                } else {
                    assert(nv[i + 1] == y);
                }
            }
            if y == x@ {
                assert(nv[p as int] == y);
            }
        }
        assert(nv.to_set() =~= old_v.to_set().insert(x@));
    }
}

/// The operations that a list of invocations covers.
#[derive(Debug)]
pub struct InvocationCoverage {
    pub covered: Vec<String>,
}

pub open spec fn texts(v: Seq<String>) -> Seq<Seq<char>> {
    v.map_values(|s: String| s@)
}

/// The names of the invoked operations.
pub open spec fn invoked_names(rs: Seq<InvokeResult>) -> Set<Seq<char>> {
    rs.map_values(|r: InvokeResult| r.operation.name@).to_set()
}

/// The distinct names of the invoked operations, sorted.
pub fn invocation_coverage(results: &[InvokeResult]) -> (r: InvocationCoverage)
    ensures
        strictly_sorted(texts(r.covered@)),
        texts(r.covered@).to_set() == invoked_names(results@),
{
    let mut covered: Vec<String> = Vec::new();
    let mut i: usize = 0;
    proof {
        assert(texts(covered@).to_set() =~= results@.subrange(0, 0).map_values(|r: InvokeResult| r.operation.name@).to_set());
    }
    while i < results.len()
        invariant
            i <= results@.len(),
            strictly_sorted(texts(covered@)),
            texts(covered@).to_set() == results@.subrange(0, i as int).map_values(|r: InvokeResult| r.operation.name@).to_set(),
        decreases results@.len() - i,
    {
        let ghost before = results@.subrange(0, i as int).map_values(|r: InvokeResult| r.operation.name@);
        insert_sorted(&mut covered, results[i].operation.name.clone());
        proof {
            let after = results@.subrange(0, i + 1).map_values(|r: InvokeResult| r.operation.name@);
            assert(after =~= before.push(results@[i as int].operation.name@));
            before.lemma_push_to_set_commute(results@[i as int].operation.name@);
        }
        i = i + 1;
    }
    proof {
        assert(results@.subrange(0, results@.len() as int) =~= results@);
    }
    InvocationCoverage { covered }
}

/// The operation a result is about and its witness, if it found one.
pub open spec fn result_parts(r: ExplorationResult) -> Option<(Seq<char>, Option<Seq<GeneratedOperation>>)> {
    match r {
        ExplorationResult::NoExampleFound { .. } => None,
        ExplorationResult::StateMutation { query_operation, minimal_sequence } => Some((query_operation@, opt_seq(minimal_sequence))),
        ExplorationResult::StateIdentity { query_operation, minimal_sequence } => Some((query_operation@, opt_seq(minimal_sequence))),
        ExplorationResult::ResponseEquality { operation, minimal_sequence } => Some((operation@, opt_seq(minimal_sequence))),
        ExplorationResult::ResponseInEquality { operation, minimal_sequence } => Some((operation@, opt_seq(minimal_sequence))),
        ExplorationResult::ResponseCheck { operation, minimal_sequence } => Some((operation@, opt_seq(minimal_sequence))),
    }
}

pub open spec fn opt_seq(o: Option<Vec<GeneratedOperation>>) -> Option<Seq<GeneratedOperation>> {
    match o {
        Some(v) => Some(v@),
        None => None,
    }
}

/// The names a result covers: its operation and those of its witness.
pub open spec fn result_names(r: ExplorationResult) -> Set<Seq<char>> {
    match result_parts(r) {
        None => Set::empty(),
        Some((op, None)) => set![op],
        Some((op, Some(w))) => set![op].union(w.map_values(|g: GeneratedOperation| g.name@).to_set()),
    }
}

/// The names covered by the first `n` results.
pub open spec fn covered_names(rs: Seq<ExplorationResult>, n: int) -> Set<Seq<char>>
    decreases n,
{
    if n <= 0 {
        Set::empty()
    } else {
        covered_names(rs, n - 1).union(result_names(rs[n - 1]))
    }
}

/// Which operations the witnesses cover, and which of the model's
/// operations none covers.
#[derive(Debug)]
pub struct ExplorationCoverage {
    pub covered: Vec<String>,
    pub uncovered: Vec<String>,
}

fn insert_witness(covered: &mut Vec<String>, w: &Vec<GeneratedOperation>)
    requires
        strictly_sorted(texts(old(covered)@)),
    ensures
        strictly_sorted(texts(final(covered)@)),
        texts(final(covered)@).to_set() == texts(old(covered)@).to_set().union(w@.map_values(|g: GeneratedOperation| g.name@).to_set()),
{
    let ghost start = texts(covered@).to_set();
    let mut j: usize = 0;
    proof {
        assert(w@.subrange(0, 0).map_values(|g: GeneratedOperation| g.name@).to_set() =~= Set::<Seq<char>>::empty());
        assert(start.union(Set::<Seq<char>>::empty()) =~= start);
    }
    while j < w.len()
        invariant
            j <= w@.len(),
            strictly_sorted(texts(covered@)),
            texts(covered@).to_set() == start.union(w@.subrange(0, j as int).map_values(|g: GeneratedOperation| g.name@).to_set()),
        decreases w@.len() - j,
    {
        let ghost before = w@.subrange(0, j as int).map_values(|g: GeneratedOperation| g.name@);
        insert_sorted(covered, w[j].name.clone());
        proof {
            let after = w@.subrange(0, j + 1).map_values(|g: GeneratedOperation| g.name@);
            assert(after =~= before.push(w@[j as int].name@));
            before.lemma_push_to_set_commute(w@[j as int].name@);
            assert(start.union(after.to_set()) =~= start.union(before.to_set()).insert(w@[j as int].name@));
        }
        j = j + 1;
    }
    proof {
        assert(w@.subrange(0, w@.len() as int) =~= w@);
    }
}

/// The sorted, distinct names covered by the results, and the sorted,
/// distinct names of the model's operations that none covers.
pub fn exploration_coverage(results: &[ExplorationResult], operations: &[Operation]) -> (r: ExplorationCoverage)
    ensures
        strictly_sorted(texts(r.covered@)),
        texts(r.covered@).to_set() == covered_names(results@, results@.len() as int),
        strictly_sorted(texts(r.uncovered@)),
        texts(r.uncovered@).to_set() == operations@.map_values(|o: Operation| o.info.name@).to_set().difference(
            covered_names(results@, results@.len() as int),
        ),
{
    let mut covered: Vec<String> = Vec::new();
    let mut i: usize = 0;
    proof {
        assert(texts(covered@).to_set() =~= Set::<Seq<char>>::empty());
    }
    while i < results.len()
        invariant
            i <= results@.len(),
            strictly_sorted(texts(covered@)),
            texts(covered@).to_set() == covered_names(results@, i as int),
        decreases results@.len() - i,
    {
        let ghost before = texts(covered@).to_set();
        let (name, witness) = match &results[i] {
            ExplorationResult::NoExampleFound { .. } => {
                proof {
                    assert(covered_names(results@, i + 1) =~= before);
                }
                i = i + 1;
                continue;
            },
            ExplorationResult::StateMutation { query_operation, minimal_sequence } => (query_operation, minimal_sequence),
            ExplorationResult::StateIdentity { query_operation, minimal_sequence } => (query_operation, minimal_sequence),
            ExplorationResult::ResponseEquality { operation, minimal_sequence } => (operation, minimal_sequence),
            ExplorationResult::ResponseInEquality { operation, minimal_sequence } => (operation, minimal_sequence),
            ExplorationResult::ResponseCheck { operation, minimal_sequence } => (operation, minimal_sequence),
        };
        proof {
            assert(result_parts(results@[i as int]) == Some((name@, opt_seq(*witness))));
        }
        insert_sorted(&mut covered, name.clone());
        if let Some(w) = witness {
            insert_witness(&mut covered, w);
            proof {
                assert(before.insert(name@).union(w@.map_values(|g: GeneratedOperation| g.name@).to_set())
                    =~= before.union(set![name@].union(w@.map_values(|g: GeneratedOperation| g.name@).to_set())));
            }
        } else {
            proof {
                assert(before.insert(name@) =~= before.union(set![name@]));
            }
        }
        i = i + 1;
    }
    let ghost cov = texts(covered@).to_set();
    let mut uncovered: Vec<String> = Vec::new();
    let mut k: usize = 0;
    proof {
        assert(texts(uncovered@).to_set() =~= Set::<Seq<char>>::empty());
        assert(operations@.subrange(0, 0).map_values(|o: Operation| o.info.name@).to_set().difference(cov) =~= Set::<Seq<char>>::empty());
    }
    while k < operations.len()
        invariant
            k <= operations@.len(),
            cov == texts(covered@).to_set(),
            cov == covered_names(results@, results@.len() as int),
            strictly_sorted(texts(covered@)),
            strictly_sorted(texts(uncovered@)),
            texts(uncovered@).to_set() == operations@.subrange(0, k as int).map_values(|o: Operation| o.info.name@).to_set().difference(cov),
        decreases operations@.len() - k,
    {
        let name = &operations[k].info.name;
        let ghost before = operations@.subrange(0, k as int).map_values(|o: Operation| o.info.name@);
        let mut found = false;
        let mut c: usize = 0;
        while c < covered.len()
            invariant
                c <= covered@.len(),
                found == exists|m: int| 0 <= m < c && texts(covered@)[m] == name@,
            decreases covered@.len() - c,
        {
            if covered[c] == *name {
                proof {
                    assert(texts(covered@)[c as int] == name@);
                }
                found = true;
            }
            proof {
                if found {
                    let m = choose|m: int| 0 <= m < c + 1 && texts(covered@)[m] == name@;
                }
            }
            c = c + 1;
        }
        proof {
            assert(found == cov.contains(name@));
        }
        if !found {
            insert_sorted(&mut uncovered, name.clone());
        }
        proof {
            let after = operations@.subrange(0, k + 1).map_values(|o: Operation| o.info.name@);
            assert(after =~= before.push(name@));
            before.lemma_push_to_set_commute(name@);
            if found {
                assert(after.to_set().difference(cov) =~= before.to_set().difference(cov));
            } else {
                assert(after.to_set().difference(cov) =~= before.to_set().difference(cov).insert(name@));
            }
        }
        k = k + 1;
    }
    proof {
        assert(operations@.subrange(0, operations@.len() as int) =~= operations@);
    }
    ExplorationCoverage { covered, uncovered }
}

} // verus!
