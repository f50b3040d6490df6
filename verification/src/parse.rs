//! The `key = value` section format: parsing lines into pairs, rendering
//! pairs back, merging two pair lists, and checking a parsed setting's
//! attributes.

use vstd::prelude::*;

verus! {

use vstd::string::StrSliceExecFns;
use vstd::string::StringExecFns;

use crate::lines::{join_lines, join_of, lines_of, split_lines};
use crate::text::{find_from, find_spec, lemma_find_from_spec, str_eq};

/// The characters `str::trim_start` and `str::trim_end` strip: the Unicode
/// white-space property.
pub open spec fn is_ws(c: char) -> bool {
    ||| c == ' '
    ||| c == '\t'
    ||| c == '\n'
    ||| c == '\u{000B}'
    ||| c == '\u{000C}'
    ||| c == '\r'
    ||| c == '\u{0085}'
    ||| c == '\u{00A0}'
    ||| c == '\u{1680}'
    ||| (0x2000 <= c as u32 <= 0x200A)
    ||| c == '\u{2028}'
    ||| c == '\u{2029}'
    ||| c == '\u{202F}'
    ||| c == '\u{205F}'
    ||| c == '\u{3000}'
}

/// `s` without its leading white space.
pub open spec fn trim_start_spec(s: Seq<char>) -> Seq<char>
    decreases s.len(),
{
    if s.len() > 0 && is_ws(s[0]) {
        trim_start_spec(s.drop_first())
    } else {
        s
    }
}

/// `s` without its trailing white space.
pub open spec fn trim_end_spec(s: Seq<char>) -> Seq<char>
    decreases s.len(),
{
    if s.len() > 0 && is_ws(s.last()) {
        trim_end_spec(s.drop_last())
    } else {
        s
    }
}

/// `s` without leading or trailing white space.
pub open spec fn trim_spec(s: Seq<char>) -> Seq<char> {
    trim_end_spec(trim_start_spec(s))
}

proof fn lemma_trim_start_at(s: Seq<char>, a: int)
    requires
        0 <= a <= s.len(),
        forall|k: int| 0 <= k < a ==> is_ws(s[k]),
        a < s.len() ==> !is_ws(s[a]),
    ensures
        trim_start_spec(s) == s.skip(a),
    decreases a,
{
    if a == 0 {
        assert(s.skip(0) =~= s);
    } else {
        assert(is_ws(s[0]));
        lemma_trim_start_at(s.drop_first(), a - 1);
        assert(s.drop_first().skip(a - 1) =~= s.skip(a));
    }
}

proof fn lemma_trim_end_at(s: Seq<char>, b: int)
    requires
        0 <= b <= s.len(),
        forall|k: int| b <= k < s.len() ==> is_ws(s[k]),
        b > 0 ==> !is_ws(s[b - 1]),
    ensures
        trim_end_spec(s) == s.take(b),
    decreases s.len() - b,
{
    if b == s.len() {
        assert(s.take(b) =~= s);
    } else {
        assert(is_ws(s.last()));
        lemma_trim_end_at(s.drop_last(), b);
        assert(s.drop_last().take(b) =~= s.take(b));
    }
}

/// Strips leading and trailing white space, as `str::trim_start` and
/// `str::trim_end` do.
pub fn trim_str<'a>(s: &'a str) -> (r: &'a str)
    ensures
        r@ == trim_spec(s@),
{
    let n = s.unicode_len();
    let mut a: usize = 0;
    while a < n && is_space(s.get_char(a))
        invariant
            n == s@.len(),
            0 <= a <= n,
            forall|k: int| 0 <= k < a ==> is_ws(s@[k]),
        decreases n - a,
    {
        a += 1;
    }
    let mut b: usize = n;
    while b > a && is_space(s.get_char(b - 1))
        invariant
            n == s@.len(),
            0 <= a <= b <= n,
            forall|k: int| 0 <= k < a ==> is_ws(s@[k]),
            a < n ==> !is_ws(s@[a as int]),
            forall|k: int| b <= k < n ==> is_ws(s@[k]),
        decreases b,
    {
        b -= 1;
    }
    proof {
        lemma_trim_start_at(s@, a as int);
        lemma_trim_end_at(s@.skip(a as int), b - a);
        assert(s@.skip(a as int).take(b - a) =~= s@.subrange(a as int, b as int));
    }
    s.substring_char(a, b)
}

/// Whether `c` has the Unicode white-space property.
pub fn is_space(c: char) -> (r: bool)
    ensures
        r == is_ws(c),
{
    let u = c as u32;
    u == 0x20 || u == 0x09 || u == 0x0A || u == 0x0B || u == 0x0C || u == 0x0D || u == 0x85
        || u == 0xA0 || u == 0x1680 || (0x2000 <= u && u <= 0x200A) || u == 0x2028 || u == 0x2029
        || u == 0x202F || u == 0x205F || u == 0x3000
}

/// The first index at or after `i` whose pair carries the key `k`.
pub open spec fn first_key_from(ps: Seq<(Seq<char>, Seq<char>)>, k: Seq<char>, i: int) -> Option<
    int,
>
    decreases ps.len() - i when 0 <= i
{
    if i >= ps.len() {
        None
    } else if ps[i].0 == k {
        Some(i)
    } else {
        first_key_from(ps, k, i + 1)
    }
}

/// The value stored under key `k`, if any.
pub open spec fn lookup_spec(ps: Seq<(Seq<char>, Seq<char>)>, k: Seq<char>) -> Option<Seq<char>> {
    match first_key_from(ps, k, 0) {
        None => None,
        Some(m) => Some(ps[m].1),
    }
}

/// The pairs with `v` stored under `k`: an existing pair of that key is
/// replaced in place, otherwise the new pair is appended.
pub open spec fn upsert_spec(
    ps: Seq<(Seq<char>, Seq<char>)>,
    k: Seq<char>,
    v: Seq<char>,
) -> Seq<(Seq<char>, Seq<char>)> {
    match first_key_from(ps, k, 0) {
        None => ps.push((k, v)),
        Some(m) => ps.update(m, (k, v)),
    }
}

/// What `first_key_from` returns: the least index carrying the key, or
/// `None` exactly when no pair at or after `i` carries it.
pub proof fn lemma_first_key_from(ps: Seq<(Seq<char>, Seq<char>)>, k: Seq<char>, i: int)
    requires
        0 <= i,
    ensures
        match first_key_from(ps, k, i) {
            Some(m) => i <= m < ps.len() && ps[m].0 == k && (forall|j: int|
                i <= j < m ==> ps[j].0 != k),
            None => forall|j: int| i <= j < ps.len() ==> ps[j].0 != k,
        },
    decreases ps.len() - i,
{
    if i >= ps.len() {
    } else if ps[i].0 == k {
    } else {
        lemma_first_key_from(ps, k, i + 1);
    }
}

/// An index carrying the key, with none before it, is the first.
pub proof fn lemma_first_key_is(ps: Seq<(Seq<char>, Seq<char>)>, k: Seq<char>, i: int, m: int)
    requires
        0 <= i <= m < ps.len(),
        ps[m].0 == k,
        forall|j: int| i <= j < m ==> ps[j].0 != k,
    ensures
        first_key_from(ps, k, i) == Some(m),
    decreases ps.len() - i,
{
    if i == m {
    } else {
        lemma_first_key_is(ps, k, i + 1, m);
    }
}

/// Looks up the value stored under `key`.
pub fn lookup<'a>(ps: &'a Vec<(String, String)>, key: &str) -> (r: Option<&'a String>)
    ensures
        match r {
            Some(v) => lookup_spec(ps.deep_view(), key@) == Some(v@),
            None => lookup_spec(ps.deep_view(), key@) is None,
        },
{
    let ghost dv = ps.deep_view();
    let mut i: usize = 0;
    while i < ps.len()
        invariant
            0 <= i <= ps@.len(),
            dv == ps.deep_view(),
            forall|j: int| 0 <= j < i ==> dv[j].0 != key@,
        decreases ps@.len() - i,
    {
        if str_eq(ps[i].0.as_str(), key) {
            proof {
                lemma_first_key_is(dv, key@, 0, i as int);
            }
            return Some(&ps[i].1);
        }
        i += 1;
    }
    proof {
        lemma_first_key_from(dv, key@, 0);
    }
    None
}

/// Stores `val` under `key`: replaces the first pair of that key in place,
/// or appends a new pair.
pub fn upsert(ps: &mut Vec<(String, String)>, key: &str, val: &str)
    ensures
        final(ps).deep_view() == upsert_spec(old(ps).deep_view(), key@, val@),
{
    let ghost dv = ps.deep_view();
    let mut i: usize = 0;
    while i < ps.len()
        invariant
            0 <= i <= ps@.len(),
            dv == ps.deep_view(),
            *ps == *old(ps),
            forall|j: int| 0 <= j < i ==> dv[j].0 != key@,
        decreases ps@.len() - i,
    {
        if str_eq(ps[i].0.as_str(), key) {
            proof {
                lemma_first_key_is(dv, key@, 0, i as int);
            }
            ps[i] = (String::from_str(key), String::from_str(val));
            proof {
                assert(ps.deep_view() =~= dv.update(i as int, (key@, val@)));
            }
            return ;
        }
        i += 1;
    }
    proof {
        lemma_first_key_from(dv, key@, 0);
    }
    ps.push((String::from_str(key), String::from_str(val)));
    proof {
        assert(ps.deep_view() =~= dv.push((key@, val@)));
    }
}

/// A trimmed value with surrounding double quotes removed; anything else,
/// including a value of fewer than two characters, is kept as it is.
pub open spec fn strip_quotes_spec(v: Seq<char>) -> Seq<char> {
    if v.len() >= 2 && v[0] == '"' && v.last() == '"' {
        v.subrange(1, v.len() - 1)
    } else {
        v
    }
}

/// The pairs and error line numbers accumulated by reading the lines from
/// index `i` on: a blank line is skipped, a line without `=` records its
/// line number as an error, and any other line is split at its first `=`
/// into a trimmed key and a trimmed, quote-stripped value, which is stored
/// over any earlier value of the same key.
pub open spec fn parse_scan(
    lines: Seq<Seq<char>>,
    i: int,
    ps: Seq<(Seq<char>, Seq<char>)>,
    errs: Seq<int>,
) -> (Seq<(Seq<char>, Seq<char>)>, Seq<int>)
    decreases lines.len() - i when 0 <= i
{
    if i >= lines.len() {
        (ps, errs)
    } else {
        let line = lines[i];
        if trim_spec(line).len() == 0 {
            parse_scan(lines, i + 1, ps, errs)
        } else {
            match find_spec(line, seq!['=']) {
                None => parse_scan(lines, i + 1, ps, errs.push(i)),
                Some(p) => {
                    let k = trim_spec(line.take(p));
                    let v = strip_quotes_spec(trim_spec(line.skip(p + 1)));
                    parse_scan(lines, i + 1, upsert_spec(ps, k, v), errs)
                },
            }
        }
    }
}

/// What `parse` produces from the whole content: the stored pairs if every
/// non-blank line carried an `=`, else the offending line numbers.
pub open spec fn parse_spec(content: Seq<char>) -> Result<
    Seq<(Seq<char>, Seq<char>)>,
    Seq<int>,
> {
    let r = parse_scan(lines_of(content), 0, Seq::empty(), Seq::empty());
    if r.1.len() > 0 {
        Err(r.1)
    } else {
        Ok(r.0)
    }
}

/// Parses `key = value` lines into pairs, later lines of a repeated key
/// overriding earlier ones; returns the line numbers of the lines missing
/// an `=` instead when there are any.
pub fn parse(contents: &str) -> (r: Result<Vec<(String, String)>, Vec<u32>>)
    requires
        lines_of(contents@).len() <= u32::MAX,
    ensures
        match r {
            Ok(v) => parse_spec(contents@) == Ok::<_, Seq<int>>(v.deep_view()),
            Err(e) => parse_spec(contents@) == Err::<Seq<(Seq<char>, Seq<char>)>, _>(
                e@.map_values(|u: u32| u as int),
            ),
        },
{
    let ls = split_lines(contents);
    let ghost ldv = ls.deep_view();
    let mut out: Vec<(String, String)> = Vec::new();
    let mut errs: Vec<u32> = Vec::new();
    let mut i: usize = 0;
    proof {
        reveal_strlit("=");
        assert("="@ =~= seq!['=']);
        assert(out.deep_view() =~= Seq::<(Seq<char>, Seq<char>)>::empty());
        assert(errs@.map_values(|u: u32| u as int) =~= Seq::<int>::empty());
    }
    while i < ls.len()
        invariant
            0 <= i <= ls@.len(),
            ldv == ls.deep_view(),
            ldv.len() <= u32::MAX,
            "="@ == seq!['='],
            parse_scan(ldv, 0, Seq::empty(), Seq::empty()) == parse_scan(
                ldv,
                i as int,
                out.deep_view(),
                errs@.map_values(|u: u32| u as int),
            ),
        decreases ls@.len() - i,
    {
        let line = ls[i].as_str();
        proof {
            assert(ldv[i as int] == ls@[i as int]@);
        }
        let t = trim_str(line);
        if t.unicode_len() == 0 {
        } else {
            match find_from(line, "=", 0) {
                None => {
                    let ghost evs = errs@.map_values(|u: u32| u as int);
                    errs.push(i as u32);
                    proof {
                        assert(errs@.map_values(|u: u32| u as int) =~= evs.push(i as int));
                    }
                },
                Some(p) => {
                    proof {
                        lemma_find_from_spec(line@, "="@, 0);
                    }
                    let n = line.unicode_len();
                    let key = trim_str(line.substring_char(0, p));
                    let val_raw = trim_str(line.substring_char(p + 1, n));
                    proof {
                        assert(line@.subrange(0, p as int) =~= line@.take(p as int));
                        assert(line@.subrange(p + 1, n as int) =~= line@.skip(p + 1));
                    }
                    let vn = val_raw.unicode_len();
                    let val = if vn >= 2 && val_raw.get_char(0) == '"' && val_raw.get_char(vn - 1)
                        == '"' {
                        proof {
                            assert(val_raw@.last() == val_raw@[vn - 1]);
                        }
                        val_raw.substring_char(1, vn - 1)
                    } else {
                        val_raw
                    };
                    proof {
                        assert(val@ == strip_quotes_spec(trim_spec(line@.skip(p + 1))));
                    }
                    upsert(&mut out, key, val);
                },
            }
        }
        i += 1;
    }
    if errs.len() > 0 {
        Err(errs)
    } else {
        Ok(out)
    }
}

/// The pairs rendered back as `key = value` lines, one per pair, each
/// terminated by the separator.
pub open spec fn from_hash_spec(ps: Seq<(Seq<char>, Seq<char>)>) -> Seq<char>
    decreases ps.len(),
{
    if ps.len() == 0 {
        Seq::empty()
    } else {
        from_hash_spec(ps.drop_last()) + ps.last().0 + " = "@ + ps.last().1 + "\n"@
    }
}

/// Renders the pairs as `key = value` lines.
pub fn from_hash(hash: Vec<(String, String)>) -> (r: String)
    ensures
        r@ == from_hash_spec(hash.deep_view()),
{
    let ghost dv = hash.deep_view();
    let mut out = String::new();
    let mut i: usize = 0;
    proof {
        assert(dv.take(0) =~= Seq::<(Seq<char>, Seq<char>)>::empty());
    }
    while i < hash.len()
        invariant
            0 <= i <= hash@.len(),
            dv == hash.deep_view(),
            out@ == from_hash_spec(dv.take(i as int)),
        decreases hash@.len() - i,
    {
        out.append(hash[i].0.as_str());
        out.append(" = ");
        out.append(hash[i].1.as_str());
        out.append("\n");
        proof {
            assert(dv.take(i + 1).drop_last() =~= dv.take(i as int));
            assert(dv.take(i + 1).last() == dv[i as int]);
        }
        i += 1;
    }
    proof {
        assert(dv.take(dv.len() as int) =~= dv);
    }
    out
}

/// The pairs of `a` with every pair of `b` stored over them, in order.
pub open spec fn merge_spec(
    a: Seq<(Seq<char>, Seq<char>)>,
    b: Seq<(Seq<char>, Seq<char>)>,
) -> Seq<(Seq<char>, Seq<char>)>
    decreases b.len(),
{
    if b.len() == 0 {
        a
    } else {
        upsert_spec(merge_spec(a, b.drop_last()), b.last().0, b.last().1)
    }
}

/// Stores every pair of `merge_with` into `settings`, a pair of
/// `merge_with` overriding one of the same key.
pub fn merge(settings: Vec<(String, String)>, merge_with: Vec<(String, String)>) -> (r: Vec<
    (String, String),
>)
    ensures
        r.deep_view() == merge_spec(settings.deep_view(), merge_with.deep_view()),
{
    let ghost adv = settings.deep_view();
    let ghost bdv = merge_with.deep_view();
    let mut out = settings;
    let mut i: usize = 0;
    proof {
        assert(bdv.take(0) =~= Seq::<(Seq<char>, Seq<char>)>::empty());
    }
    while i < merge_with.len()
        invariant
            0 <= i <= merge_with@.len(),
            bdv == merge_with.deep_view(),
            out.deep_view() == merge_spec(adv, bdv.take(i as int)),
        decreases merge_with@.len() - i,
    {
        upsert(&mut out, merge_with[i].0.as_str(), merge_with[i].1.as_str());
        proof {
            assert(bdv.take(i + 1).drop_last() =~= bdv.take(i as int));
            assert(bdv.take(i + 1).last() == bdv[i as int]);
        }
        i += 1;
    }
    proof {
        assert(bdv.take(bdv.len() as int) =~= bdv);
    }
    out
}

/// The indices, from `i` on, of the lines that read `--` once trimmed: the
/// separators between sections of a sectioned registry file.
pub open spec fn indicator_indices(ls: Seq<Seq<char>>, i: int) -> Seq<int>
    decreases ls.len() - i when 0 <= i
{
    if i >= ls.len() {
        Seq::empty()
    } else if trim_spec(ls[i]) == "--"@ {
        seq![i] + indicator_indices(ls, i + 1)
    } else {
        indicator_indices(ls, i + 1)
    }
}

/// Splits a sectioned registry file on its `--` separator lines: one entry
/// per section, carrying the separator's line index and the lines strictly
/// between it and the next separator, rejoined. Lines before the first
/// separator, and lines after the last (which closes no section), are
/// dropped.
pub fn split_sections(contents: &str) -> (r: Vec<(usize, String)>)
    ensures
        ({
            let ls = lines_of(contents@);
            let ind = indicator_indices(ls, 0);
            &&& r@.len() == (if ind.len() > 0 {
                ind.len() - 1
            } else {
                0
            })
            &&& forall|i: int|
                0 <= i < r@.len() ==> (#[trigger] r@[i]).0 == ind[i] && r@[i].1@ == join_of(
                    ls.subrange(ind[i] + 1, ind[i + 1]),
                )
        }),
{
    let ls = split_lines(contents);
    let ghost ldv = ls.deep_view();
    let ghost ind = indicator_indices(ldv, 0);
    let mut indicators: Vec<usize> = Vec::new();
    let mut i: usize = 0;
    proof {
        assert(indicators@.map_values(|u: usize| u as int) =~= Seq::<int>::empty());
        reveal_strlit("--");
    }
    while i < ls.len()
        invariant
            0 <= i <= ls@.len(),
            ldv == ls.deep_view(),
            ind == indicator_indices(ldv, 0),
            ind == indicators@.map_values(|u: usize| u as int) + indicator_indices(ldv, i as int),
            forall|j: int| 0 <= j < indicators@.len() ==> (#[trigger] indicators@[j]) < i,
        decreases ls@.len() - i,
    {
        let ghost iv = indicators@.map_values(|u: usize| u as int);
        let t = trim_str(ls[i].as_str());
        proof {
            assert(ldv[i as int] == ls@[i as int]@);
        }
        if str_eq(t, "--") {
            indicators.push(i);
            proof {
                assert(indicators@.map_values(|u: usize| u as int) =~= iv.push(i as int));
                assert(iv.push(i as int) + indicator_indices(ldv, i + 1) =~= iv + (seq![i as int]
                    + indicator_indices(ldv, i + 1)));
            }
        }
        i += 1;
    }
    proof {
        assert(indicator_indices(ldv, ls@.len() as int) =~= Seq::<int>::empty());
        assert(indicators@.map_values(|u: usize| u as int) + Seq::<int>::empty()
            =~= indicators@.map_values(|u: usize| u as int));
    }
    let mut out: Vec<(usize, String)> = Vec::new();
    if indicators.len() == 0 {
        return out;
    }
    let mut sec: usize = 0;
    while sec < indicators.len() - 1
        invariant
            indicators@.len() >= 1,
            0 <= sec <= indicators@.len() - 1,
            ldv == ls.deep_view(),
            ind == indicator_indices(ldv, 0),
            ind == indicators@.map_values(|u: usize| u as int),
            forall|j: int| 0 <= j < indicators@.len() ==> (#[trigger] indicators@[j]) < ldv.len(),
            out@.len() == sec,
            forall|j: int|
                0 <= j < sec ==> (#[trigger] out@[j]).0 == ind[j] && out@[j].1@ == join_of(
                    ldv.subrange(ind[j] + 1, ind[j + 1]),
                ),
        decreases indicators@.len() - 1 - sec,
    {
        let lo = indicators[sec];
        let hi = indicators[sec + 1];
        proof {
            lemma_indicator_sorted(ldv, 0);
            assert(ind[sec as int] == indicators@[sec as int] as int);
            assert(ind[sec + 1] == indicators@[sec + 1] as int);
            assert(ind[sec as int] < ind[sec + 1] < ldv.len());
        }
        let mut body: Vec<String> = Vec::new();
        let mut k: usize = lo + 1;
        proof {
            assert(body.deep_view() =~= ldv.subrange(lo + 1, lo + 1));
        }
        while k < hi
            invariant
                lo < hi < ldv.len(),
                lo + 1 <= k <= hi,
                ldv == ls.deep_view(),
                body.deep_view() == ldv.subrange(lo + 1, k as int),
            decreases hi - k,
        {
            let ghost prev = body.deep_view();
            body.push(ls[k].clone());
            proof {
                assert(body.deep_view() =~= prev.push(ldv[k as int]));
                assert(prev.push(ldv[k as int]) =~= ldv.subrange(lo + 1, k + 1));
            }
            k += 1;
        }
        let joined = join_lines(&body);
        out.push((lo, joined));
        sec += 1;
    }
    out
}

/// Indicator indices are strictly increasing and in bounds.
proof fn lemma_indicator_sorted(ls: Seq<Seq<char>>, i: int)
    requires
        0 <= i,
    ensures
        forall|a: int, b: int|
            0 <= a < b < indicator_indices(ls, i).len() ==> i <= #[trigger] indicator_indices(
                ls,
                i,
            )[a] < #[trigger] indicator_indices(ls, i)[b] < ls.len(),
        forall|a: int|
            0 <= a < indicator_indices(ls, i).len() ==> i <= #[trigger] indicator_indices(ls, i)[a]
                < ls.len(),
    decreases ls.len() - i,
{
    if i >= ls.len() {
    } else {
        lemma_indicator_sorted(ls, i + 1);
        if trim_spec(ls[i]) == "--"@ {
            assert(forall|a: int|
                0 <= a < indicator_indices(ls, i).len() ==> indicator_indices(ls, i)[a] == if a
                    == 0 {
                    i
                } else {
                    indicator_indices(ls, i + 1)[a - 1]
                });
        }
    }
}

/// `c` is an ASCII decimal digit.
pub open spec fn is_digit(c: char) -> bool {
    0x30 <= c as u32 <= 0x39
}

/// Every character of `s` is an ASCII decimal digit.
pub open spec fn all_digits(s: Seq<char>) -> bool {
    forall|k: int| 0 <= k < s.len() ==> is_digit(#[trigger] s[k])
}

/// The value of a string of decimal digits.
pub open spec fn dec_val(s: Seq<char>) -> int
    decreases s.len(),
{
    if s.len() == 0 {
        0
    } else {
        dec_val(s.drop_last()) * 10 + (s.last() as u32 - 0x30)
    }
}

/// What `str::parse::<i32>` accepts: an optional sign, then at least one
/// digit and nothing else, with the value inside the type's range.
pub open spec fn parse_i32_ok(s: Seq<char>) -> bool {
    &&& s.len() > 0
    &&& ({
        let body = if s[0] == '+' || s[0] == '-' {
            s.drop_first()
        } else {
            s
        };
        &&& body.len() > 0
        &&& all_digits(body)
        &&& (if s[0] == '-' {
            dec_val(body) <= 0x8000_0000
        } else {
            dec_val(body) <= 0x7fff_ffff
        })
    })
}

proof fn lemma_dec_val_nonneg(s: Seq<char>)
    requires
        all_digits(s),
    ensures
        dec_val(s) >= 0,
    decreases s.len(),
{
    if s.len() > 0 {
        assert(all_digits(s.drop_last())) by {
            assert(forall|k: int|
                0 <= k < s.drop_last().len() ==> s.drop_last()[k] == s[k]);
        }
        lemma_dec_val_nonneg(s.drop_last());
    }
}

/// Whether `s` parses as an `i32`, per `parse_i32_ok`.
pub fn is_valid_i32(s: &str) -> (r: bool)
    ensures
        r == parse_i32_ok(s@),
{
    let n = s.unicode_len();
    if n == 0 {
        return false;
    }
    let c0 = s.get_char(0);
    let signed = c0 == '+' || c0 == '-';
    let start: usize = if signed {
        1
    } else {
        0
    };
    let ghost body = if signed {
        s@.drop_first()
    } else {
        s@
    };
    proof {
        assert(forall|k: int| start <= k < n ==> body[k - start] == s@[k]);
        assert(body.len() == n - start);
    }
    if start == n {
        return false;
    }
    let mut acc: u64 = 0;
    let mut over = false;
    let mut k: usize = start;
    while k < n
        invariant
            n == s@.len(),
            n > 0,
            start <= k <= n,
            start <= 1,
            (s@[0] == '+' || s@[0] == '-') <==> start == 1,
            body == if s@[0] == '+' || s@[0] == '-' {
                s@.drop_first()
            } else {
                s@
            },
            body.len() == n - start,
            forall|j: int| start <= j < n ==> body[j - start] == s@[j],
            forall|j: int| 0 <= j < k - start ==> is_digit(#[trigger] body[j]),
            !over ==> acc <= 0x8000_0000 && acc == dec_val(body.take(k - start)),
            over ==> dec_val(body.take(k - start)) > 0x8000_0000,
            over ==> all_digits(body.take(k - start)),
        decreases n - k,
    {
        let c = s.get_char(k);
        let d = c as u32;
        if d < 0x30 || d > 0x39 {
            proof {
                assert(body[k - start] == s@[k as int]);
                assert(!is_digit(body[k - start]));
            }
            return false;
        }
        proof {
            assert(body[k - start] == s@[k as int]);
            assert(body.take(k + 1 - start).drop_last() =~= body.take(k - start));
            assert(body.take(k + 1 - start).last() == body[k - start]);
        }
        if !over {
            acc = acc * 10 + (d - 0x30) as u64;
            if acc > 0x8000_0000 {
                over = true;
                proof {
                    assert(all_digits(body.take(k + 1 - start))) by {
                        assert(forall|j: int|
                            0 <= j < k + 1 - start ==> body.take(k + 1 - start)[j] == body[j]);
                    }
                }
            }
        } else {
            proof {
                assert(all_digits(body.take(k + 1 - start))) by {
                    assert(forall|j: int|
                        0 <= j < k + 1 - start ==> body.take(k + 1 - start)[j] == body[j]);
                }
                lemma_dec_val_nonneg(body.take(k - start));
                assert(dec_val(body.take(k + 1 - start)) > 0x8000_0000);
            }
        }
        k += 1;
    }
    proof {
        assert(body.take(n - start) =~= body);
        assert(all_digits(body));
    }
    if over {
        return false;
    }
    if c0 == '-' {
        true
    } else {
        acc <= 0x7fff_ffff
    }
}

/// The names every setting in the section format must define.
pub open spec fn required_attrs() -> Seq<Seq<char>> {
    seq![
        "name"@,
        "file"@,
        "value_type"@,
        "replace_at"@,
        "replace_with"@,
        "match_pattern"@,
        "match_type"@,
    ]
}

/// All required attributes are present.
pub open spec fn has_required_attrs(ps: Seq<(Seq<char>, Seq<char>)>) -> bool {
    forall|k: int|
        0 <= k < required_attrs().len() ==> lookup_spec(ps, #[trigger] required_attrs()[k]) is Some
}

/// The four markers a boolean `replace_with` template must carry.
pub open spec fn bool_markers_ok(v: Seq<char>) -> bool {
    &&& find_spec(v, "<|true_begin|>"@) is Some
    &&& find_spec(v, "<|true_end|>"@) is Some
    &&& find_spec(v, "<|false_begin|>"@) is Some
    &&& find_spec(v, "<|false_end|>"@) is Some
}

/// The four markers a region `match_pattern` must carry.
pub open spec fn region_markers_ok(v: Seq<char>) -> bool {
    &&& find_spec(v, "<|first_pattern_begin|>"@) is Some
    &&& find_spec(v, "<|first_pattern_end|>"@) is Some
    &&& find_spec(v, "<|second_pattern_begin|>"@) is Some
    &&& find_spec(v, "<|second_pattern_end|>"@) is Some
}

/// When a parsed setting's attributes are correct: every required
/// attribute present; `value_type` either `boolean` (with the four boolean
/// markers in `replace_with`) or `text`; `replace_at` an `i32`; and
/// `match_type` either `region` (with the four pattern markers in
/// `match_pattern`) or `line`.
pub open spec fn evaluate_ok_spec(ps: Seq<(Seq<char>, Seq<char>)>) -> bool {
    &&& has_required_attrs(ps)
    &&& ({
        let vt = lookup_spec(ps, "value_type"@)->0;
        &&& (vt == "boolean"@ || vt == "text"@)
        &&& (vt == "boolean"@ ==> bool_markers_ok(lookup_spec(ps, "replace_with"@)->0))
    })
    &&& parse_i32_ok(lookup_spec(ps, "replace_at"@)->0)
    &&& ({
        let mt = lookup_spec(ps, "match_type"@)->0;
        &&& (mt == "region"@ || mt == "line"@)
        &&& (mt == "region"@ ==> region_markers_ok(lookup_spec(ps, "match_pattern"@)->0))
    })
}

/// Checks a parsed setting's attributes, handing the setting back
/// untouched exactly when they are correct.
pub fn evaluate_setting(setting: Vec<(String, String)>, setting_location: usize) -> (r: Result<
    Vec<(String, String)>,
    (),
>)
    ensures
        r is Ok <==> evaluate_ok_spec(setting.deep_view()),
        r matches Ok(v) ==> v == setting,
{
    let ghost dv = setting.deep_view();
    let mut error = false;
    let name_v = lookup(&setting, "name");
    let file_v = lookup(&setting, "file");
    let value_type = lookup(&setting, "value_type");
    let replace_at = lookup(&setting, "replace_at");
    let replace_with = lookup(&setting, "replace_with");
    let match_pattern = lookup(&setting, "match_pattern");
    let match_type = lookup(&setting, "match_type");
    if name_v.is_none() || file_v.is_none() || value_type.is_none() || replace_at.is_none()
        || replace_with.is_none() || match_pattern.is_none() || match_type.is_none() {
        proof {
            assert(!has_required_attrs(dv)) by {
                if name_v is None {
                    assert(lookup_spec(dv, required_attrs()[0]) is None);
                } else if file_v is None {
                    assert(lookup_spec(dv, required_attrs()[1]) is None);
                } else if value_type is None {
                    assert(lookup_spec(dv, required_attrs()[2]) is None);
                } else if replace_at is None {
                    assert(lookup_spec(dv, required_attrs()[3]) is None);
                } else if replace_with is None {
                    assert(lookup_spec(dv, required_attrs()[4]) is None);
                } else if match_pattern is None {
                    assert(lookup_spec(dv, required_attrs()[5]) is None);
                } else {
                    assert(lookup_spec(dv, required_attrs()[6]) is None);
                }
            }
        }
        return Err(());
    }
    proof {
        assert(has_required_attrs(dv)) by {
            assert(forall|k: int|
                0 <= k < required_attrs().len() ==> lookup_spec(
                    dv,
                    #[trigger] required_attrs()[k],
                ) is Some) by {
                assert(lookup_spec(dv, required_attrs()[0]) is Some);
                assert(lookup_spec(dv, required_attrs()[1]) is Some);
                assert(lookup_spec(dv, required_attrs()[2]) is Some);
                assert(lookup_spec(dv, required_attrs()[3]) is Some);
                assert(lookup_spec(dv, required_attrs()[4]) is Some);
                assert(lookup_spec(dv, required_attrs()[5]) is Some);
                assert(lookup_spec(dv, required_attrs()[6]) is Some);
            }
        }
    }
    let value_type = value_type.unwrap();
    let replace_at = replace_at.unwrap();
    let replace_with = replace_with.unwrap();
    let match_pattern = match_pattern.unwrap();
    let match_type = match_type.unwrap();
    if str_eq(value_type.as_str(), "boolean") {
        if find_from(replace_with.as_str(), "<|true_begin|>", 0).is_none() {
            error = true;
        }
        if find_from(replace_with.as_str(), "<|true_end|>", 0).is_none() {
            error = true;
        }
        if find_from(replace_with.as_str(), "<|false_begin|>", 0).is_none() {
            error = true;
        }
        if find_from(replace_with.as_str(), "<|false_end|>", 0).is_none() {
            error = true;
        }
    } else if str_eq(value_type.as_str(), "text") {
    } else {
        error = true;
    }
    if !is_valid_i32(replace_at.as_str()) {
        error = true;
    }
    if str_eq(match_type.as_str(), "region") {
        if find_from(match_pattern.as_str(), "<|first_pattern_begin|>", 0).is_none() {
            error = true;
        }
        if find_from(match_pattern.as_str(), "<|first_pattern_end|>", 0).is_none() {
            error = true;
        }
        if find_from(match_pattern.as_str(), "<|second_pattern_begin|>", 0).is_none() {
            error = true;
        }
        if find_from(match_pattern.as_str(), "<|second_pattern_end|>", 0).is_none() {
            error = true;
        }
    } else if str_eq(match_type.as_str(), "line") {
    } else {
        error = true;
    }
    if error {
        Err(())
    } else {
        Ok(setting)
    }
}

} // verus!
