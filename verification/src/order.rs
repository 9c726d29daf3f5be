//! Lexicographic order on sequences of numbers, used to order file names
//! (by character) and build-tool versions (by numeric component).
use vstd::prelude::*;

verus! {

/// `a` comes strictly before `b` lexicographically; a proper prefix comes
/// first.
pub open spec fn lex_less(a: Seq<int>, b: Seq<int>) -> bool
    decreases a.len(),
{
    if a.len() == 0 {
        b.len() > 0
    } else if b.len() == 0 {
        false
    } else if a[0] != b[0] {
        a[0] < b[0]
    } else {
        lex_less(a.drop_first(), b.drop_first())
    }
}

/// Characters as their code points.
pub open spec fn code_points(s: Seq<char>) -> Seq<int> {
    s.map_values(|c: char| c as int)
}

/// Numbers as integers.
pub open spec fn numbers(s: Seq<u32>) -> Seq<int> {
    s.map_values(|x: u32| x as int)
}

/// `a` comes strictly before `b` in code-point order (the order of Rust's
/// `String` comparison).
pub open spec fn text_less(a: Seq<char>, b: Seq<char>) -> bool {
    lex_less(code_points(a), code_points(b))
}

pub proof fn lemma_lex_irreflexive(a: Seq<int>)
    ensures
        !lex_less(a, a),
    decreases a.len(),
{
    if a.len() > 0 {
        lemma_lex_irreflexive(a.drop_first());
    }
}

pub proof fn lemma_lex_transitive(a: Seq<int>, b: Seq<int>, c: Seq<int>)
    requires
        lex_less(a, b),
        lex_less(b, c),
    ensures
        lex_less(a, c),
    decreases a.len(),
{
    if a.len() > 0 && b.len() > 0 && c.len() > 0 && a[0] == b[0] && b[0] == c[0] {
        lemma_lex_transitive(a.drop_first(), b.drop_first(), c.drop_first());
    }
}

pub proof fn lemma_lex_total(a: Seq<int>, b: Seq<int>)
    ensures
        lex_less(a, b) || lex_less(b, a) || a == b,
    decreases a.len(),
{
    if a.len() > 0 && b.len() > 0 && a[0] == b[0] {
        lemma_lex_total(a.drop_first(), b.drop_first());
        if a.drop_first() == b.drop_first() {
            assert(a =~= seq![a[0]] + a.drop_first());
            assert(b =~= seq![b[0]] + b.drop_first());
        }
    } else if a.len() == 0 && b.len() == 0 {
        assert(a =~= b);
    }
}

pub proof fn lemma_code_points_injective(a: Seq<char>, b: Seq<char>)
    requires
        code_points(a) == code_points(b),
    ensures
        a == b,
{
    assert(a.len() == code_points(a).len());
    assert(b.len() == code_points(b).len());
    assert forall|i: int| 0 <= i < a.len() implies a[i] == b[i] by {
        assert(code_points(a)[i] == a[i] as int);
        assert(code_points(b)[i] == b[i] as int);
        assert(code_points(a)[i] == code_points(b)[i]);
    }
    assert(a =~= b);
}

/// `a` comes before `b` in code-point order.
pub fn text_less_exec(a: &Vec<char>, b: &Vec<char>) -> (r: bool)
    ensures
        r == lex_less(code_points(a@), code_points(b@)),
{
    let ghost fa = code_points(a@);
    let ghost fb = code_points(b@);
    proof {
        assert(fa.skip(0) =~= fa);
        assert(fb.skip(0) =~= fb);
    }
    let mut i: usize = 0;
    while i < a.len() && i < b.len()
        invariant
            fa == code_points(a@),
            fb == code_points(b@),
            i <= a.len(),
            i <= b.len(),
            lex_less(fa, fb) == lex_less(fa.skip(i as int), fb.skip(i as int)),
        decreases a.len() - i,
    {
        if a[i] != b[i] {
            assert(fa.skip(i as int)[0] == fa[i as int]);
            assert(fb.skip(i as int)[0] == fb[i as int]);
            return a[i] < b[i];
        }
        assert(fa.skip(i as int).drop_first() =~= fa.skip(i + 1));
        assert(fb.skip(i as int).drop_first() =~= fb.skip(i + 1));
        assert(fa.skip(i as int)[0] == fb.skip(i as int)[0]);
        i = i + 1;
    }
    i < b.len()
}

/// `a` comes before `b` in lexicographic numeric order.
pub fn numbers_less_exec(a: &Vec<u32>, b: &Vec<u32>) -> (r: bool)
    ensures
        r == lex_less(numbers(a@), numbers(b@)),
{
    let ghost fa = numbers(a@);
    let ghost fb = numbers(b@);
    proof {
        assert(fa.skip(0) =~= fa);
        assert(fb.skip(0) =~= fb);
    }
    let mut i: usize = 0;
    while i < a.len() && i < b.len()
        invariant
            fa == numbers(a@),
            fb == numbers(b@),
            i <= a.len(),
            i <= b.len(),
            lex_less(fa, fb) == lex_less(fa.skip(i as int), fb.skip(i as int)),
        decreases a.len() - i,
    {
        if a[i] != b[i] {
            assert(fa.skip(i as int)[0] == fa[i as int]);
            assert(fb.skip(i as int)[0] == fb[i as int]);
            return a[i] < b[i];
        }
        assert(fa.skip(i as int).drop_first() =~= fa.skip(i + 1));
        assert(fb.skip(i as int).drop_first() =~= fb.skip(i + 1));
        assert(fa.skip(i as int)[0] == fb.skip(i as int)[0]);
        i = i + 1;
    }
    i < b.len()
}

} // verus!

verus! {

/// The character sequences held by `v`.
pub open spec fn char_rows(v: Seq<Vec<char>>) -> Seq<Seq<char>> {
    v.map_values(|r: Vec<char>| r@)
}

/// Index `a` comes before index `b` when its key is smaller, or the keys are
/// equal and `a` is the earlier index (a stable order).
pub open spec fn key_before(keys: Seq<Seq<char>>, a: int, b: int) -> bool {
    text_less(keys[a], keys[b]) || (keys[a] == keys[b] && a < b)
}

/// `order` lists exactly the indices below `keys.len()` that `selected` marks,
/// each once, in `key_before` order.
pub open spec fn sorted_selection(keys: Seq<Seq<char>>, selected: Seq<bool>, order: Seq<usize>) -> bool {
    &&& forall|x: int, y: int|
        0 <= x < y < order.len() ==> key_before(keys, order[x] as int, order[y] as int)
    &&& forall|x: int| 0 <= x < order.len() ==> order[x] < keys.len()
    &&& forall|k: int|
        0 <= k < keys.len() ==> (order.contains(k as usize) <==> #[trigger] selected[k])
}

/// Indices of the selected keys, ordered by key and, for equal keys, by index.
pub fn sorted_selection_exec(keys: &Vec<Vec<char>>, selected: &Vec<bool>) -> (order: Vec<usize>)
    requires
        selected@.len() == keys@.len(),
    ensures
        sorted_selection(char_rows(keys@), selected@, order@),
{
    let ghost ks = char_rows(keys@);
    let mut order: Vec<usize> = Vec::new();
    let mut j: usize = 0;
    while j < keys.len()
        invariant
            ks == char_rows(keys@),
            ks.len() == keys@.len(),
            selected@.len() == keys@.len(),
            j <= keys.len(),
            forall|x: int, y: int|
                0 <= x < y < order@.len() ==> key_before(ks, order@[x] as int, order@[y] as int),
            forall|x: int| 0 <= x < order@.len() ==> order@[x] < j,
            forall|k: int|
                0 <= k < j ==> (order@.contains(k as usize) <==> #[trigger] selected@[k]),
        decreases keys.len() - j,
    {
        if selected[j] {
            let mut pos: usize = 0;
            while pos < order.len() && !text_less_exec(&keys[j], &keys[order[pos]])
                invariant
                    ks == char_rows(keys@),
                    j < keys.len(),
                    pos <= order.len(),
                    forall|x: int| 0 <= x < order@.len() ==> order@[x] < j,
                    forall|x: int|
                        0 <= x < pos ==> !text_less(ks[j as int], #[trigger] ks[order@[x] as int]),
                decreases order.len() - pos,
            {
                assert(keys@[order@[pos as int] as int]@ == ks[order@[pos as int] as int]);
                assert(keys@[j as int]@ == ks[j as int]);
                pos = pos + 1;
            }
            proof {
                if pos < order.len() {
                    assert(keys@[order@[pos as int] as int]@ == ks[order@[pos as int] as int]);
                    assert(keys@[j as int]@ == ks[j as int]);
                }
            }
            let ghost old_order = order@;
            order.insert(pos, j);
            proof {
                old_order.insert_ensures(pos as int, j);
                let kj = ks[j as int];
                assert forall|x: int, y: int|
                    0 <= x < y < order@.len() implies key_before(
                    ks,
                    order@[x] as int,
                    order@[y] as int,
                ) by {
                    let p = pos as int;
                    if y < p {
                        assert(order@[x] == old_order[x] && order@[y] == old_order[y]);
                    } else if x > p {
                        assert(order@[x] == old_order[x - 1] && order@[y] == old_order[y - 1]);
                    } else if x < p && y > p {
                        assert(order@[x] == old_order[x] && order@[y] == old_order[y - 1]);
                    } else if y == p {
                        let a = old_order[x] as int;
                        assert(order@[x] == old_order[x]);
                        lemma_lex_total(code_points(kj), code_points(ks[a]));
                        if code_points(kj) == code_points(ks[a]) {
                            lemma_code_points_injective(kj, ks[a]);
                        }
                    } else {
                        // x == p, y > p
                        let b = old_order[y - 1] as int;
                        let c = old_order[p] as int;
                        assert(order@[y] == old_order[y - 1]);
                        assert(text_less(kj, ks[c]));
                        if y - 1 > p {
                            assert(key_before(ks, c, b));
                            if text_less(ks[c], ks[b]) {
                                lemma_lex_transitive(
                                    code_points(kj),
                                    code_points(ks[c]),
                                    code_points(ks[b]),
                                );
                            }
                        }
                    }
                }
                assert forall|k: int| 0 <= k < j + 1 implies (order@.contains(k as usize)
                    <==> #[trigger] selected@[k]) by {
                    if k < j {
                        if old_order.contains(k as usize) {
                            let x = choose|x: int| 0 <= x < old_order.len() && old_order[x] == k as usize;
                            if x < pos {
                                assert(order@[x] == k as usize);
                            } else {
                                assert(order@[x + 1] == k as usize);
                            }
                        }
                        if order@.contains(k as usize) {
                            let x = choose|x: int| 0 <= x < order@.len() && order@[x] == k as usize;
                            if x < pos {
                                assert(old_order[x] == k as usize);
                            } else if x > pos {
                                assert(old_order[x - 1] == k as usize);
                            }
                        }
                    } else {
                        assert(order@[pos as int] == j);
                        if old_order.contains(k as usize) {
                            let x = choose|x: int| 0 <= x < old_order.len() && old_order[x] == k as usize;
                            assert(old_order[x] < j);
                        }
                    }
                }
            }
        } else {
            proof {
                if order@.contains(j as usize) {
                    let x = choose|x: int| 0 <= x < order@.len() && order@[x] == j as usize;
                    assert(order@[x] < j);
                }
            }
        }
        j = j + 1;
    }
    order
}

} // verus!
