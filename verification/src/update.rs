//! Version comparison for the update check: versions are split on dots,
//! numeric components are kept, and the lists are compared
//! lexicographically, a shorter list losing ties.

use vstd::prelude::*;

verus! {

/// The index of the first dot, or the length when there is none.
pub open spec fn dot_idx(s: Seq<char>) -> int
    decreases s.len(),
{
    if s.len() == 0 {
        0
    } else if s[0] == '.' {
        0
    } else {
        1 + dot_idx(s.subrange(1, s.len() as int))
    }
}

proof fn lemma_dot_idx_bounds(s: Seq<char>)
    ensures
        0 <= dot_idx(s) <= s.len(),
        dot_idx(s) < s.len() ==> s[dot_idx(s)] == '.',
        forall|q: int| 0 <= q < dot_idx(s) ==> s[q] != '.',
    decreases s.len(),
{
    if s.len() > 0 && s[0] != '.' {
        let t = s.subrange(1, s.len() as int);
        lemma_dot_idx_bounds(t);
        assert forall|q: int| 0 <= q < dot_idx(s) implies s[q] != '.' by {
            if q >= 1 {
                assert(t[q - 1] == s[q]);
                assert(t[q - 1] != '.');
            }
        }
    }
}

/// The first dot stands at `i` exactly when no dot stands before it.
proof fn lemma_dot_idx_is(s: Seq<char>, i: int)
    requires
        0 <= i <= s.len(),
        forall|q: int| 0 <= q < i ==> s[q] != '.',
        i < s.len() ==> s[i] == '.',
    ensures
        dot_idx(s) == i,
    decreases i,
{
    if s.len() == 0 {
    } else if i == 0 {
    } else {
        let t = s.subrange(1, s.len() as int);
        lemma_dot_idx_is(t, i - 1);
    }
}

/// Split on dots; a string without dots is one component.
pub open spec fn split_dot(s: Seq<char>) -> Seq<Seq<char>>
    decreases s.len(),
{
    let i = dot_idx(s);
    if i < 0 || i >= s.len() {
        seq![s]
    } else {
        seq![s.subrange(0, i)].add(split_dot(s.subrange(i + 1, s.len() as int)))
    }
}

pub open spec fn is_digit(c: char) -> bool {
    '0' <= c && c <= '9'
}

pub open spec fn all_digits(s: Seq<char>) -> bool {
    forall|q: int| 0 <= q < s.len() ==> is_digit(#[trigger] s[q])
}

/// The value of a digit string, most significant first.
pub open spec fn dec_val(s: Seq<char>) -> int
    decreases s.len(),
{
    if s.len() == 0 {
        0
    } else {
        dec_val(s.subrange(0, s.len() - 1)) * 10 + (s[s.len() - 1] as int - '0' as int)
    }
}

proof fn lemma_dec_val_nonneg(s: Seq<char>)
    requires
        all_digits(s),
    ensures
        dec_val(s) >= 0,
    decreases s.len(),
{
    if s.len() > 0 {
        let t = s.subrange(0, s.len() - 1);
        lemma_dec_val_nonneg(t);
        assert(is_digit(s[s.len() - 1]));
        assert(dec_val(t) * 10 >= 0) by (nonlinear_arith)
            requires
                dec_val(t) >= 0,
        ;
    }
}

/// A numeric component: non-empty, digits only, and fitting in `u32`.
pub open spec fn comp_val(s: Seq<char>) -> Option<int> {
    if s.len() > 0 && all_digits(s) && dec_val(s) <= u32::MAX {
        Some(dec_val(s))
    } else {
        None
    }
}

/// Keep the numeric components, in order.
pub open spec fn nums_of(parts: Seq<Seq<char>>) -> Seq<int>
    decreases parts.len(),
{
    if parts.len() == 0 {
        Seq::empty()
    } else {
        match comp_val(parts[0]) {
            Some(v) => seq![v].add(nums_of(parts.subrange(1, parts.len() as int))),
            None => nums_of(parts.subrange(1, parts.len() as int)),
        }
    }
}

/// The numeric components of a version string.
pub open spec fn version_nums(s: Seq<char>) -> Seq<int> {
    nums_of(split_dot(s))
}

/// Lexicographic order on number lists, a shorter list losing ties.
pub open spec fn seq_lt(a: Seq<int>, b: Seq<int>) -> bool
    decreases a.len(),
{
    if b.len() == 0 {
        false
    } else if a.len() == 0 {
        true
    } else if a[0] != b[0] {
        a[0] < b[0]
    } else {
        seq_lt(a.subrange(1, a.len() as int), b.subrange(1, b.len() as int))
    }
}

/// The integer sequence a `u32` vector stands for.
pub open spec fn u32s_view(v: Seq<u32>) -> Seq<int> {
    Seq::new(v.len(), |i: int| if 0 <= i < v.len() {
        v[i] as int
    } else {
        0
    })
}

/// Parse one component; anything non-numeric or too large is dropped.
#[verifier::loop_isolation(false)]
fn comp_value(tok: &str) -> (r: Option<u32>)
    ensures
        match r {
            Some(v) => comp_val(tok@) == Some(v as int),
            None => comp_val(tok@) is None,
        },
{
    let n = tok.unicode_len();
    if n == 0 {
        return None;
    }
    let mut val: u64 = 0;
    let mut i: usize = 0;
    while i < n
        invariant
            0 <= i <= n,
            n == tok@.len(),
            all_digits(tok@.subrange(0, i as int)),
            val == dec_val(tok@.subrange(0, i as int)),
            val <= u32::MAX,
        decreases n - i,
    {
        let c = tok.get_char(i);
        if !('0' <= c && c <= '9') {
            proof {
                assert(!is_digit(tok@[i as int]));
            }
            return None;
        }
        let d: u64 = (c as u32) as u64 - 48;
        proof {
            assert('0' as u32 == 48);
            assert(d == (tok@[i as int] as int - '0' as int));
        }
        let next: u64 = val * 10 + d;
        proof {
            assert(tok@.subrange(0, i + 1).subrange(0, i as int) =~= tok@.subrange(0, i as int));
            assert(tok@.subrange(0, i + 1)[i as int] == tok@[i as int]);
            assert(next == dec_val(tok@.subrange(0, i + 1)));
        }
        if next > 0xFFFF_FFFF {
            proof {
                lemma_dec_val_overflow(tok@, i + 1);
            }
            return None;
        }
        val = next;
        i = i + 1;
    }
    proof {
        assert(tok@.subrange(0, n as int) =~= tok@);
    }
    Some(val as u32)
}

/// Once a digit prefix exceeds `u32::MAX`, so does the whole string.
proof fn lemma_dec_val_overflow(s: Seq<char>, k: int)
    requires
        0 <= k <= s.len(),
        all_digits(s.subrange(0, k)),
        dec_val(s.subrange(0, k)) > u32::MAX,
    ensures
        all_digits(s) ==> dec_val(s) > u32::MAX,
    decreases s.len() - k,
{
    if k < s.len() && all_digits(s) {
        let p = s.subrange(0, k);
        let p2 = s.subrange(0, k + 1);
        assert(p2.subrange(0, k) =~= p);
        assert(is_digit(s[k]));
        assert(p2[k] == s[k]);
        assert(dec_val(p2) == dec_val(p) * 10 + (s[k] as int - '0' as int));
        assert(dec_val(p) * 10 > u32::MAX) by (nonlinear_arith)
            requires
                dec_val(p) > u32::MAX,
        ;
        assert(all_digits(p2));
        lemma_dec_val_overflow(s, k + 1);
    } else {
        if all_digits(s) {
            assert(s.subrange(0, k) =~= s);
        }
    }
}

/// Parse a version string into its numeric components.
#[verifier::loop_isolation(false)]
pub fn parse_version(s: &str) -> (r: Vec<u32>)
    ensures
        u32s_view(r@) == version_nums(s@),
    decreases s@.len(),
{
    let n = s.unicode_len();
    let mut i: usize = 0;
    while i < n && s.get_char(i) != '.'
        invariant
            0 <= i <= n,
            n == s@.len(),
            forall|q: int| 0 <= q < i ==> s@[q] != '.',
        decreases n - i,
    {
        i = i + 1;
    }
    proof {
        lemma_dot_idx_is(s@, i as int);
    }
    if i == n {
        // no dot: a single component
        let mut out: Vec<u32> = Vec::new();
        proof {
            assert(split_dot(s@) =~= seq![s@]);
            assert(s@.subrange(0, n as int) =~= s@);
        }
        match comp_value(s) {
            Some(v) => {
                out.push(v);
                proof {
                    assert(split_dot(s@).subrange(1, 1) =~= Seq::<Seq<char>>::empty());
                    assert(nums_of(split_dot(s@).subrange(1, 1)) =~= Seq::<int>::empty());
                    assert(version_nums(s@) =~= seq![v as int]);
                    assert(u32s_view(out@) =~= seq![v as int]);
                }
            },
            None => {
                proof {
                    assert(split_dot(s@).subrange(1, 1) =~= Seq::<Seq<char>>::empty());
                    assert(nums_of(split_dot(s@).subrange(1, 1)) =~= Seq::<int>::empty());
                    assert(version_nums(s@) =~= Seq::<int>::empty());
                    assert(u32s_view(out@) =~= Seq::<int>::empty());
                }
            },
        }
        out
    } else {
        let head = crate::text::substring_of(s, 0, i);
        let tail = crate::text::substring_of(s, i + 1, n);
        let tail_string = tail;
        let mut rest = parse_version(tail_string.as_str());
        proof {
            assert(split_dot(s@) == seq![s@.subrange(0, i as int)].add(
                split_dot(s@.subrange(i + 1, n as int)),
            ));
            assert(split_dot(s@)[0] == head@);
            assert(split_dot(s@).subrange(1, split_dot(s@).len() as int) =~= split_dot(
                tail_string@,
            ));
        }
        match comp_value(head.as_str()) {
            Some(v) => {
                let ghost restv = u32s_view(rest@);
                rest.insert(0, v);
                proof {
                    assert(version_nums(s@) == seq![v as int].add(version_nums(tail_string@)));
                    assert(u32s_view(rest@) =~= seq![v as int].add(restv));
                    assert(u32s_view(rest@) =~= version_nums(s@));
                }
                rest
            },
            None => {
                proof {
                    assert(version_nums(s@) == version_nums(tail_string@));
                }
                rest
            },
        }
    }
}

/// Lexicographic comparison of parsed versions.
#[verifier::loop_isolation(false)]
pub fn version_less(a: &Vec<u32>, b: &Vec<u32>) -> (r: bool)
    ensures
        r == seq_lt(u32s_view(a@), u32s_view(b@)),
{
    let ghost av = u32s_view(a@);
    let ghost bv = u32s_view(b@);
    proof {
        assert(av.subrange(0, av.len() as int) =~= av);
        assert(bv.subrange(0, bv.len() as int) =~= bv);
    }
    let mut i: usize = 0;
    while i < a.len() && i < b.len() && a[i] == b[i]
        invariant
            0 <= i <= av.len(),
            0 <= i <= bv.len(),
            av.len() == a@.len(),
            bv.len() == b@.len(),
            seq_lt(av, bv) == seq_lt(
                av.subrange(i as int, av.len() as int),
                bv.subrange(i as int, bv.len() as int),
            ),
        decreases av.len() - i,
    {
        proof {
            let sa = av.subrange(i as int, av.len() as int);
            let sb = bv.subrange(i as int, bv.len() as int);
            assert(sa[0] == av[i as int] && sb[0] == bv[i as int]);
            assert(sa.subrange(1, sa.len() as int) =~= av.subrange(i + 1, av.len() as int));
            assert(sb.subrange(1, sb.len() as int) =~= bv.subrange(i + 1, bv.len() as int));
        }
        i = i + 1;
    }
    proof {
        let sa = av.subrange(i as int, av.len() as int);
        let sb = bv.subrange(i as int, bv.len() as int);
        if i < a.len() && i < b.len() {
            assert(sa[0] == av[i as int] && sb[0] == bv[i as int]);
        }
    }
    if i >= b.len() {
        false
    } else if i >= a.len() {
        true
    } else {
        a[i] < b[i]
    }
}

/// Is `latest` strictly newer than `current`? Numeric components compare
/// lexicographically; non-numeric components are ignored.
pub fn is_newer(latest: &str, current: &str) -> (r: bool)
    ensures
        r == seq_lt(version_nums(current@), version_nums(latest@)),
{
    let l = parse_version(latest);
    let c = parse_version(current);
    version_less(&c, &l)
}

} // verus!
