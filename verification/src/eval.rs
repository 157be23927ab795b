use vstd::prelude::*;

use crate::expr::{Expr, ExprModel};

verus! {

/// Whether the characters `s` are exactly described by the pattern `e`: a
/// literal describes its own characters and nothing else; alternation
/// describes what either side describes; concatenation describes every
/// sequence that splits into a part the left side describes followed by a
/// part the right side describes; repetition describes the empty sequence,
/// and any sequence that begins with a nonempty part its body describes and
/// continues with something the repetition describes.
pub open spec fn in_lang(e: ExprModel, s: Seq<char>) -> bool
    decreases e, s.len(),
{
    match e {
        ExprModel::Alphabet(text) => s == text,
        ExprModel::Star(inner) => s.len() == 0 || exists|i: int|
            1 <= i <= s.len() && in_lang(*inner, s.subrange(0, i)) && in_lang(
                e,
                s.subrange(i, s.len() as int),
            ),
        ExprModel::Plus(lhs, rhs) => in_lang(*lhs, s) || in_lang(*rhs, s),
        ExprModel::Dot(lhs, rhs) => exists|i: int|
            0 <= i <= s.len() && in_lang(*lhs, s.subrange(0, i)) && in_lang(
                *rhs,
                s.subrange(i, s.len() as int),
            ),
    }
}

/// A repetition that describes `a`, followed by one more nonempty part its
/// body describes, describes the whole of `a + b`.
pub proof fn lemma_star_append(inner: ExprModel, a: Seq<char>, b: Seq<char>)
    requires
        in_lang(ExprModel::Star(Box::new(inner)), a),
        in_lang(inner, b),
        b.len() > 0,
    ensures
        in_lang(ExprModel::Star(Box::new(inner)), a + b),
    decreases a.len(),
{
    let star = ExprModel::Star(Box::new(inner));
    let ab = a + b;
    if a.len() == 0 {
        assert(ab =~= b);
        assert(ab.subrange(0, b.len() as int) =~= b);
        assert(ab.subrange(b.len() as int, ab.len() as int) =~= Seq::<char>::empty());
        assert(1 <= b.len() <= ab.len() && in_lang(inner, ab.subrange(0, b.len() as int))
            && in_lang(star, ab.subrange(b.len() as int, ab.len() as int)));
        assert(in_lang(star, ab));
    } else {
        let i = choose|i: int|
            1 <= i <= a.len() && in_lang(inner, a.subrange(0, i)) && in_lang(
                star,
                a.subrange(i, a.len() as int),
            );
        lemma_star_append(inner, a.subrange(i, a.len() as int), b);
        assert(a.subrange(i, a.len() as int) + b =~= ab.subrange(i, ab.len() as int));
        assert(ab.subrange(0, i) =~= a.subrange(0, i));
        assert(1 <= i <= ab.len() && in_lang(inner, ab.subrange(0, i)) && in_lang(
            star,
            ab.subrange(i, ab.len() as int),
        ));
        assert(in_lang(star, ab));
    }
}

/// Concatenation over a window of `s`: the window is described exactly when
/// it splits at some middle position into a left part and a right part that
/// the two sides describe.
pub proof fn lemma_dot_split(l: ExprModel, r: ExprModel, s: Seq<char>, start: int, q: int)
    requires
        0 <= start <= q <= s.len(),
    ensures
        in_lang(ExprModel::Dot(Box::new(l), Box::new(r)), s.subrange(start, q)) <==> exists|m: int|
            start <= m <= q && in_lang(l, s.subrange(start, m)) && in_lang(r, s.subrange(m, q)),
{
    let d = ExprModel::Dot(Box::new(l), Box::new(r));
    let t = s.subrange(start, q);
    if in_lang(d, t) {
        let i = choose|i: int|
            0 <= i <= t.len() && in_lang(l, t.subrange(0, i)) && in_lang(
                r,
                t.subrange(i, t.len() as int),
            );
        assert(t.subrange(0, i) =~= s.subrange(start, start + i));
        assert(t.subrange(i, t.len() as int) =~= s.subrange(start + i, q));
        assert(start <= start + i <= q && in_lang(l, s.subrange(start, start + i)) && in_lang(
            r,
            s.subrange(start + i, q),
        ));
    }
    if exists|m: int|
        start <= m <= q && in_lang(l, s.subrange(start, m)) && in_lang(r, s.subrange(m, q)) {
        let m = choose|m: int|
            start <= m <= q && in_lang(l, s.subrange(start, m)) && in_lang(r, s.subrange(m, q));
        assert(s.subrange(start, m) =~= t.subrange(0, m - start));
        assert(s.subrange(m, q) =~= t.subrange(m - start, t.len() as int));
        assert(0 <= m - start <= t.len() && in_lang(l, t.subrange(0, m - start)) && in_lang(
            r,
            t.subrange(m - start, t.len() as int),
        ));
        assert(in_lang(d, t));
    }
}

/// If `reach` is closed under extending a reached position by one nonempty
/// part the repetition's body describes, then from a reached `p` every `q`
/// whose window `p..q` the repetition describes is reached.
pub proof fn lemma_star_complete(
    inner: ExprModel,
    s: Seq<char>,
    reach: Seq<bool>,
    start: int,
    p: int,
    q: int,
)
    requires
        0 <= start <= p <= q <= s.len(),
        reach.len() == s.len() + 1,
        reach[p],
        forall|a: int, b: int|
            start <= a < b <= s.len() && reach[a] && in_lang(inner, s.subrange(a, b)) ==> reach[b],
        in_lang(ExprModel::Star(Box::new(inner)), s.subrange(p, q)),
    ensures
        reach[q],
    decreases q - p,
{
    if p < q {
        let star = ExprModel::Star(Box::new(inner));
        let t = s.subrange(p, q);
        let i = choose|i: int|
            1 <= i <= t.len() && in_lang(inner, t.subrange(0, i)) && in_lang(
                star,
                t.subrange(i, t.len() as int),
            );
        assert(t.subrange(0, i) =~= s.subrange(p, p + i));
        assert(t.subrange(i, t.len() as int) =~= s.subrange(p + i, q));
        assert(reach[p + i]);
        lemma_star_complete(inner, s, reach, start, p + i, q);
    }
}

fn false_vec(n: usize) -> (r: Vec<bool>)
    ensures
        r@.len() == n,
        forall|i: int| 0 <= i < n ==> !r@[i],
{
    let mut r: Vec<bool> = Vec::new();
    let mut k: usize = 0;
    while k < n
        invariant
            r@.len() == k,
            k <= n,
            forall|i: int| 0 <= i < k ==> !r@[i],
        decreases n - k,
    {
        r.push(false);
        k = k + 1;
    }
    r
}

/// End positions for a literal: at most the one position `start` plus the
/// literal's length, and that one exactly when the window holds the
/// literal's characters.
#[verifier::loop_isolation(false)]
fn eval_alphabet(text: &String, s: &str, start: usize, len: usize) -> (r: Vec<bool>)
    requires
        len == s@.len(),
        len < usize::MAX,
        start <= len,
    ensures
        r@.len() == len + 1,
        forall|q: int|
            0 <= q <= len ==> (r@[q] <==> (start <= q && s@.subrange(start as int, q) == text@)),
{
    let mut r = false_vec(len + 1);
    let tlen = text.as_str().unicode_len();
    let ghost mut bad: int = 0;
    let mut ok = false;
    if tlen <= len - start {
        ok = true;
        let mut k: usize = 0;
        while k < tlen
            invariant
                k <= tlen,
                tlen == text@.len(),
                ok ==> forall|j: int| 0 <= j < k ==> text@[j] == s@[start + j],
                !ok ==> (0 <= bad < tlen && text@[bad] != s@[start + bad]),
            decreases tlen - k,
        {
            let c1 = text.as_str().get_char(k);
            let c2 = s.get_char(start + k);
            if c1 != c2 {
                if ok {
                    ok = false;
                    proof {
                        bad = k as int;
                    }
                }
            }
            k = k + 1;
        }
        if ok {
            r.set(start + tlen, true);
        }
    }
    proof {
        assert forall|q: int| 0 <= q <= len implies (r@[q] <==> (start <= q && s@.subrange(
            start as int,
            q,
        ) == text@)) by {
            if start <= q {
                let sub = s@.subrange(start as int, q);
                assert(sub.len() == q - start);
                if q == start + tlen && tlen <= len - start {
                    if ok {
                        assert(sub =~= text@);
                        assert(r@[q]);
                    } else {
                        assert(sub[bad] == s@[start + bad]);
                        assert(sub != text@);
                    }
                } else {
                    assert(sub.len() != text@.len());
                    assert(sub != text@);
                }
            }
        }
    }
    r
}

/// End positions for an alternation, from the end positions of its two
/// sides: the union of the two sets, position by position.
fn eval_plus(lhs_ends: &Vec<bool>, rhs_ends: &Vec<bool>, len: usize) -> (r: Vec<bool>)
    requires
        len < usize::MAX,
        lhs_ends@.len() == len + 1,
        rhs_ends@.len() == len + 1,
    ensures
        r@.len() == len + 1,
        forall|q: int| 0 <= q <= len ==> r@[q] == (lhs_ends@[q] || rhs_ends@[q]),
{
    let mut r: Vec<bool> = Vec::new();
    let mut q: usize = 0;
    while q <= len
        invariant
            len < usize::MAX,
            q <= len + 1,
            r@.len() == q,
            lhs_ends@.len() == len + 1,
            rhs_ends@.len() == len + 1,
            forall|j: int| 0 <= j < q ==> r@[j] == (lhs_ends@[j] || rhs_ends@[j]),
        decreases len + 1 - q,
    {
        let v = lhs_ends[q] || rhs_ends[q];
        r.push(v);
        q = q + 1;
    }
    r
}

/// End positions for a concatenation, from the left side's end positions:
/// every position the right side can reach from some position the left side
/// reached.
#[verifier::loop_isolation(false)]
fn eval_dot(rhs: &Expr, lhs_ends: &Vec<bool>, s: &str, len: usize) -> (r: Vec<bool>)
    requires
        len == s@.len(),
        len < usize::MAX,
        lhs_ends@.len() == len + 1,
    ensures
        r@.len() == len + 1,
        forall|q: int|
            0 <= q <= len ==> (r@[q] <==> exists|m: int|
                0 <= m <= len && lhs_ends@[m] && m <= q && in_lang(rhs@, s@.subrange(m, q))),
    decreases rhs, 1int,
{
    let mut r = false_vec(len + 1);
    let mut m: usize = 0;
    while m <= len
        invariant
            m <= len + 1,
            r@.len() == len + 1,
            forall|q2: int|
                0 <= q2 <= len ==> (r@[q2] <==> exists|mm: int|
                    0 <= mm < m && lhs_ends@[mm] && mm <= q2 && in_lang(
                        rhs@,
                        s@.subrange(mm, q2),
                    )),
        decreases len + 1 - m,
    {
        let ghost m0 = m as int;
        if lhs_ends[m] {
            let ends_r = match_ends(rhs, s, m, len);
            let ghost rprev = r@;
            r = eval_plus(&r, &ends_r, len);
            proof {
                assert forall|q2: int| 0 <= q2 <= len implies (r@[q2] <==> exists|mm: int|
                    0 <= mm < m0 + 1 && lhs_ends@[mm] && mm <= q2 && in_lang(
                        rhs@,
                        s@.subrange(mm, q2),
                    )) by {
                    if r@[q2] {
                        if rprev[q2] {
                            let mm = choose|mm: int|
                                0 <= mm < m0 && lhs_ends@[mm] && mm <= q2 && in_lang(
                                    rhs@,
                                    s@.subrange(mm, q2),
                                );
                            assert(0 <= mm < m0 + 1 && lhs_ends@[mm] && mm <= q2 && in_lang(
                                rhs@,
                                s@.subrange(mm, q2),
                            ));
                        } else {
                            assert(ends_r@[q2]);
                            assert(0 <= m0 < m0 + 1 && lhs_ends@[m0] && m0 <= q2 && in_lang(
                                rhs@,
                                s@.subrange(m0, q2),
                            ));
                        }
                    } else {
                        assert forall|mm: int|
                            0 <= mm < m0 + 1 && lhs_ends@[mm] && mm <= q2 implies !in_lang(
                                rhs@,
                                s@.subrange(mm, q2),
                            ) by {
                            if mm == m0 {
                                assert(!ends_r@[q2]);
                            } else {
                                assert(!rprev[q2]);
                            }
                        }
                    }
                }
            }
        } else {
            proof {
                assert forall|q2: int| 0 <= q2 <= len implies (r@[q2] <==> exists|mm: int|
                    0 <= mm < m0 + 1 && lhs_ends@[mm] && mm <= q2 && in_lang(
                        rhs@,
                        s@.subrange(mm, q2),
                    )) by {
                    if !r@[q2] {
                        assert forall|mm: int|
                            0 <= mm < m0 + 1 && lhs_ends@[mm] && mm <= q2 implies !in_lang(
                                rhs@,
                                s@.subrange(mm, q2),
                            ) by {
                            assert(mm != m0);
                        }
                    }
                }
            }
        }
        m = m + 1;
    }
    r
}

/// End positions for a repetition: the least set that holds `start` and is
/// closed under one more nonempty part described by the body. Positions are
/// swept upward once, which suffices because every extension moves strictly
/// to the right.
#[verifier::loop_isolation(false)]
fn eval_star(inner: &Expr, s: &str, start: usize, len: usize) -> (r: Vec<bool>)
    requires
        len == s@.len(),
        len < usize::MAX,
        start <= len,
    ensures
        r@.len() == len + 1,
        forall|q: int|
            0 <= q <= len ==> (r@[q] <==> (start <= q && in_lang(
                ExprModel::Star(Box::new(inner@)),
                s@.subrange(start as int, q),
            ))),
    decreases inner, 1int,
{
    let ghost im = inner@;
    let ghost em = ExprModel::Star(Box::new(im));
    let mut r = false_vec(len + 1);
    r.set(start, true);
    proof {
        assert(s@.subrange(start as int, start as int) =~= Seq::<char>::empty());
    }
    let mut p: usize = start;
    while p <= len
        invariant
            start <= p <= len + 1,
            r@.len() == len + 1,
            r@[start as int],
            forall|q: int|
                0 <= q <= len ==> (r@[q] ==> (start <= q && in_lang(
                    em,
                    s@.subrange(start as int, q),
                ))),
            forall|a: int, b: int|
                start <= a < p && a < b <= len && r@[a] && in_lang(im, s@.subrange(a, b))
                    ==> r@[b],
        decreases len + 1 - p,
    {
        let has = r[p];
        if has {
            let ends_i = match_ends(inner, s, p, len);
            let ghost rprev = r@;
            r = eval_plus(&r, &ends_i, len);
            proof {
                assert forall|q2: int| 0 <= q2 <= len && r@[q2] implies (start <= q2 && in_lang(
                    em,
                    s@.subrange(start as int, q2),
                )) by {
                    if !rprev[q2] {
                        assert(ends_i@[q2]);
                        assert(p < q2);
                        lemma_star_append(
                            im,
                            s@.subrange(start as int, p as int),
                            s@.subrange(p as int, q2),
                        );
                        assert(s@.subrange(start as int, p as int) + s@.subrange(p as int, q2)
                            =~= s@.subrange(start as int, q2));
                    }
                }
                assert forall|a: int, b: int|
                    start <= a < p + 1 && a < b <= len && r@[a] && in_lang(
                        im,
                        s@.subrange(a, b),
                    ) implies r@[b] by {
                    assert(r@[a] == (rprev[a] || ends_i@[a]));
                    if a < p {
                        assert(!ends_i@[a]);
                        assert(rprev[a]);
                        assert(rprev[b]);
                        assert(r@[b] == (rprev[b] || ends_i@[b]));
                    } else {
                        assert(a == p as int);
                        assert(in_lang(im, s@.subrange(p as int, b)));
                        assert(ends_i@[b]);
                        assert(r@[b] == (rprev[b] || ends_i@[b]));
                    }
                }
            }
        }
        p = p + 1;
    }
    proof {
        assert forall|q: int|
            0 <= q <= len && start <= q && in_lang(
                em,
                s@.subrange(start as int, q),
            ) implies r@[q] by {
            lemma_star_complete(im, s@, r@, start as int, start as int, q);
        }
    }
    r
}

/// The set of end positions reachable by matching `e` against a window of
/// `s` that begins at `start`: entry `q` of the result says whether the
/// window `start..q` is exactly described by `e`.
fn match_ends(e: &Expr, s: &str, start: usize, len: usize) -> (r: Vec<bool>)
    requires
        len == s@.len(),
        len < usize::MAX,
        start <= len,
    ensures
        r@.len() == len + 1,
        forall|q: int|
            0 <= q <= len ==> (r@[q] <==> (start <= q && in_lang(
                e@,
                s@.subrange(start as int, q),
            ))),
    decreases e, 0int,
{
    match e {
        Expr::Alphabet(text) => {
            let ghost em = e@;
            let r = eval_alphabet(text, s, start, len);
            proof {
                assert forall|q: int| 0 <= q <= len implies (r@[q] <==> (start <= q && in_lang(
                    em,
                    s@.subrange(start as int, q),
                ))) by {
                    if start <= q {
                        assert(in_lang(em, s@.subrange(start as int, q)) == (s@.subrange(
                            start as int,
                            q,
                        ) == text@));
                    }
                }
            }
            r
        },
        Expr::Star(inner) => eval_star(inner, s, start, len),
        Expr::Plus(lhs, rhs) => {
            let ghost em = e@;
            let ghost lm = (**lhs)@;
            let ghost rm = (**rhs)@;
            let lhs_ends = match_ends(lhs, s, start, len);
            let rhs_ends = match_ends(rhs, s, start, len);
            let r = eval_plus(&lhs_ends, &rhs_ends, len);
            proof {
                assert forall|q: int| 0 <= q <= len implies (r@[q] <==> (start <= q && in_lang(
                    em,
                    s@.subrange(start as int, q),
                ))) by {
                    assert(in_lang(em, s@.subrange(start as int, q)) == (in_lang(
                        lm,
                        s@.subrange(start as int, q),
                    ) || in_lang(rm, s@.subrange(start as int, q))));
                }
            }
            r
        },
        Expr::Dot(lhs, rhs) => {
            let ghost em = e@;
            let ghost lm = (**lhs)@;
            let ghost rm = (**rhs)@;
            let lhs_ends = match_ends(lhs, s, start, len);
            let r = eval_dot(rhs, &lhs_ends, s, len);
            proof {
                assert forall|q: int| 0 <= q <= len implies (r@[q] <==> (start <= q && in_lang(
                    em,
                    s@.subrange(start as int, q),
                ))) by {
                    if r@[q] {
                        let m = choose|m: int|
                            0 <= m <= len && lhs_ends@[m] && m <= q && in_lang(
                                rm,
                                s@.subrange(m, q),
                            );
                        assert(start <= m && in_lang(lm, s@.subrange(start as int, m)));
                        lemma_dot_split(lm, rm, s@, start as int, q);
                    }
                    if start <= q && in_lang(em, s@.subrange(start as int, q)) {
                        lemma_dot_split(lm, rm, s@, start as int, q);
                        let m = choose|m: int|
                            start <= m <= q && in_lang(lm, s@.subrange(start as int, m))
                                && in_lang(rm, s@.subrange(m, q));
                        assert(lhs_ends@[m]);
                        assert(0 <= m <= len && lhs_ends@[m] && m <= q && in_lang(
                            rm,
                            s@.subrange(m, q),
                        ));
                    }
                }
            }
            r
        },
    }
}

/// Decides whether `target` is exactly described by `expr`: a whole-string
/// match, never a mere prefix.
pub fn matches(expr: &Expr, target: &str) -> (b: bool)
    requires
        target@.len() < usize::MAX,
    ensures
        b == in_lang(expr@, target@),
{
    let len = target.unicode_len();
    let ends = match_ends(expr, target, 0, len);
    let b = ends[len];
    proof {
        assert(target@.subrange(0, len as int) =~= target@);
    }
    b
}

} // verus!
