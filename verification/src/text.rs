//! Character-level string helpers: equality, splitting a path on `/`,
//! joining segments back together, and decimal parsing.

use vstd::prelude::*;

verus! {

/// Character-by-character string equality, proved against the views.
pub fn str_eq(a: &str, b: &str) -> (r: bool)
    ensures
        r == (a@ == b@),
{
    let na = a.unicode_len();
    let nb = b.unicode_len();
    if na != nb {
        return false;
    }
    let mut i: usize = 0;
    while i < na
        invariant
            na == a@.len(),
            na == b@.len(),
            i <= na,
            forall|j: int| 0 <= j < i ==> a@[j] == b@[j],
        decreases na - i,
    {
        if a.get_char(i) != b.get_char(i) {
            return false;
        }
        i = i + 1;
    }
    proof {
        assert(a@ =~= b@);
    }
    true
}

/// Element-wise equality of two string lists.
#[verifier::loop_isolation(false)]
pub fn string_vecs_eq(a: &Vec<String>, b: &Vec<String>) -> (r: bool)
    ensures
        r == (a.deep_view() == b.deep_view()),
{
    if a.len() != b.len() {
        proof {
            assert(a.deep_view().len() != b.deep_view().len());
        }
        return false;
    }
    let mut i: usize = 0;
    while i < a.len()
        invariant
            i <= a@.len(),
            a@.len() == b@.len(),
            forall|j: int| 0 <= j < i ==> a.deep_view()[j] == b.deep_view()[j],
        decreases a@.len() - i,
    {
        if !str_eq(a[i].as_str(), b[i].as_str()) {
            proof {
                assert(a.deep_view()[i as int] == a@[i as int]@);
                assert(b.deep_view()[i as int] == b@[i as int]@);
            }
            return false;
        }
        i = i + 1;
    }
    proof {
        assert(a.deep_view() =~= b.deep_view());
    }
    true
}

/// The pieces of `s` between the `/` separators, in order.  Splitting the
/// empty string gives one empty piece, and every separator ends one piece and
/// starts the next, so a string with `k` separators splits into `k + 1`
/// pieces.
pub open spec fn split_slashes(s: Seq<char>) -> Seq<Seq<char>>
    decreases s.len(),
{
    if s.len() == 0 {
        seq![Seq::<char>::empty()]
    } else {
        let rest = split_slashes(s.drop_last());
        if s.last() == '/' {
            rest.push(Seq::<char>::empty())
        } else {
            rest.update(rest.len() - 1, rest.last().push(s.last()))
        }
    }
}

pub proof fn lemma_split_slashes_len(s: Seq<char>)
    ensures
        split_slashes(s).len() >= 1,
    decreases s.len(),
{
    if s.len() > 0 {
        lemma_split_slashes_len(s.drop_last());
    }
}

/// Splits a path on `/`, returning the pieces as owned strings.
pub fn split_path(s: &str) -> (r: Vec<String>)
    ensures
        r.deep_view() == split_slashes(s@),
{
    let n = s.unicode_len();
    let mut parts: Vec<String> = Vec::new();
    let mut start: usize = 0;
    let mut i: usize = 0;
    proof {
        assert(s@.take(0) =~= Seq::<char>::empty());
        assert(s@.subrange(0, 0) =~= Seq::<char>::empty());
        assert(parts.deep_view() =~= Seq::<Seq<char>>::empty());
        assert(parts.deep_view().push(s@.subrange(0, 0)) =~= split_slashes(s@.take(0)));
    }
    while i < n
        invariant
            n == s@.len(),
            start <= i <= n,
            parts.deep_view().push(s@.subrange(start as int, i as int)) == split_slashes(
                s@.take(i as int),
            ),
        decreases n - i,
    {
        let c = s.get_char(i);
        let ghost st = start as int;
        proof {
            assert(s@.take(i + 1 as int).drop_last() =~= s@.take(i as int));
            assert(s@.take(i + 1 as int).last() == s@[i as int]);
        }
        if c == '/' {
            let ghost prev = parts.deep_view();
            let piece = String::from_str(s.substring_char(start, i));
            parts.push(piece);
            start = i + 1;
            proof {
                assert(parts.deep_view() =~= prev.push(s@.subrange(st, i as int)));
                assert(s@.subrange(i + 1 as int, i + 1 as int) =~= Seq::<char>::empty());
                assert(parts.deep_view().push(s@.subrange(i + 1 as int, i + 1 as int))
                    =~= split_slashes(s@.take(i + 1 as int)));
            }
        } else {
            proof {
                assert(s@.subrange(st, i + 1 as int) =~= s@.subrange(st, i as int).push(
                    s@[i as int],
                ));
                let l = split_slashes(s@.take(i as int));
                assert(parts.deep_view().push(s@.subrange(st, i + 1 as int)) =~= l.update(
                    l.len() - 1,
                    l.last().push(s@[i as int]),
                ));
            }
        }
        i = i + 1;
    }
    let ghost done = parts.deep_view();
    let last = String::from_str(s.substring_char(start, n));
    parts.push(last);
    proof {
        assert(parts.deep_view() =~= done.push(s@.subrange(start as int, n as int)));
        assert(s@.take(n as int) =~= s@);
    }
    parts
}

/// Joining pieces with `/` undoes `split_slashes`.
pub open spec fn join_slashes(parts: Seq<Seq<char>>) -> Seq<char>
    decreases parts.len(),
{
    if parts.len() == 0 {
        Seq::<char>::empty()
    } else if parts.len() == 1 {
        parts[0]
    } else {
        join_slashes(parts.drop_last()).push('/') + parts.last()
    }
}

/// Joins `parts[from..]` with `/` separators.
pub fn join_path(parts: &Vec<String>, from: usize) -> (r: String)
    requires
        from <= parts@.len(),
    ensures
        r@ == join_slashes(parts.deep_view().skip(from as int)),
{
    let mut out = String::new();
    let mut j: usize = from;
    while j < parts.len()
        invariant
            from <= j <= parts@.len(),
            out@ == join_slashes(parts.deep_view().subrange(from as int, j as int)),
        decreases parts@.len() - j,
    {
        let ghost sub = parts.deep_view().subrange(from as int, j as int);
        proof {
            assert(parts.deep_view().subrange(from as int, j + 1 as int).drop_last() =~= sub);
            assert(parts.deep_view().subrange(from as int, j + 1 as int).last()
                == parts.deep_view()[j as int]);
        }
        if j > from {
            out.append("/");
            proof {
                reveal_strlit("/");
                assert(out@ =~= join_slashes(sub).push('/'));
            }
        }
        out.append(parts[j].as_str());
        proof {
            if j == from {
                assert(out@ =~= parts.deep_view()[j as int]);
            }
        }
        j = j + 1;
    }
    proof {
        assert(parts.deep_view().subrange(from as int, parts.deep_view().len() as int)
            =~= parts.deep_view().skip(from as int));
    }
    out
}

/// `true` for the characters `0` through `9`.
pub open spec fn is_digit(c: char) -> bool {
    '0' <= c && c <= '9'
}

/// The numeric value of a digit character, and zero for anything else.
pub open spec fn digit_val(c: char) -> nat {
    if is_digit(c) {
        (c as int - '0' as int) as nat
    } else {
        0
    }
}

/// The value of a decimal numeral, most significant digit first.
pub open spec fn dec_value(s: Seq<char>) -> nat
    decreases s.len(),
{
    if s.len() == 0 {
        0
    } else {
        dec_value(s.drop_last()) * 10 + digit_val(s.last())
    }
}

pub open spec fn all_digits(s: Seq<char>) -> bool {
    forall|i: int| 0 <= i < s.len() ==> is_digit(s[i])
}

/// What unsigned 64-bit parsing accepts: a non-empty, all-digit numeral
/// whose value fits.
pub open spec fn parses_u64(s: Seq<char>) -> bool {
    s.len() > 0 && all_digits(s) && dec_value(s) <= u64::MAX
}

proof fn lemma_dec_value_prefix_le(s: Seq<char>, k: int)
    requires
        0 <= k <= s.len(),
    ensures
        dec_value(s.take(k)) <= dec_value(s),
    decreases s.len() - k,
{
    if k == s.len() {
        assert(s.take(k) =~= s);
    } else {
        assert(s.take(k + 1).drop_last() =~= s.take(k));
        assert(dec_value(s.take(k + 1)) == dec_value(s.take(k)) * 10 + digit_val(s[k]));
        lemma_dec_value_prefix_le(s, k + 1);
    }
}

/// Parses a decimal numeral as a `u64`; `None` on a malformed numeral or on
/// a value that does not fit.
pub fn parse_u64(s: &str) -> (r: Option<u64>)
    ensures
        r is Some <==> parses_u64(s@),
        r matches Some(v) ==> v == dec_value(s@),
{
    let n = s.unicode_len();
    if n == 0 {
        return None;
    }
    let mut val: u64 = 0;
    let mut i: usize = 0;
    while i < n
        invariant
            0 < n == s@.len(),
            i <= n,
            all_digits(s@.take(i as int)),
            val == dec_value(s@.take(i as int)),
        decreases n - i,
    {
        let c = s.get_char(i);
        if c < '0' || c > '9' {
            assert(!is_digit(s@[i as int]));
            return None;
        }
        let d: u64 = (c as u32 - 48) as u64;
        proof {
            assert(d == digit_val(s@[i as int]));
            assert(s@.take(i + 1 as int).drop_last() =~= s@.take(i as int));
            assert(s@.take(i + 1 as int).last() == s@[i as int]);
        }
        if val > (u64::MAX - d) / 10 {
            proof {
                assert(val * 10 + d > u64::MAX) by (nonlinear_arith)
                    requires
                        d <= 9,
                        val > (u64::MAX - d) / 10,
                ;
                if all_digits(s@) {
                    lemma_dec_value_prefix_le(s@, i + 1 as int);
                }
            }
            return None;
        }
        proof {
            assert(val * 10 + d <= u64::MAX) by (nonlinear_arith)
                requires
                    d <= 9,
                    val <= (u64::MAX - d) / 10,
            ;
        }
        val = val * 10 + d;
        i = i + 1;
    }
    proof {
        assert(s@.take(n as int) =~= s@);
    }
    Some(val)
}

} // verus!
