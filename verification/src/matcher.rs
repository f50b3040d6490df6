//! The pattern matcher and mutation applier: a single left-to-right scan of
//! the line store that either rewrites lines as matches are discovered
//! (`set`) or records the matched text (`get`), and the two-pattern region
//! scan with its splice.

use vstd::prelude::*;

verus! {

use vstd::string::StringExecFns;

use crate::regexes::{regex_is_match, CompiledRegex};
use crate::setting::Replace;

/// One placement applied at match index `i`: the matched line itself, the
/// line above (a no-op on the first line), or the line below (a no-op on
/// the last line) is replaced wholesale by `sub`.
pub open spec fn apply_at(ls: Seq<Seq<char>>, i: int, repl: Replace, sub: Seq<char>) -> Seq<
    Seq<char>,
> {
    match repl {
        Replace::MatchedText => ls.update(i, sub),
        Replace::LineAbove => if i == 0 {
            ls
        } else {
            ls.update(i - 1, sub)
        },
        Replace::LineBelow => if i == ls.len() - 1 {
            ls
        } else {
            ls.update(i + 1, sub)
        },
    }
}

/// The line store after the mutating scan has reached index `i`: each line
/// of the evolving store that matches `pat` has its placement applied, and
/// the scan stops after the first match unless `multiple` is set.
pub open spec fn scan_set(
    ls: Seq<Seq<char>>,
    pat: Seq<char>,
    repl: Replace,
    sub: Seq<char>,
    multiple: bool,
    i: int,
) -> Seq<Seq<char>>
    decreases ls.len() - i when 0 <= i
{
    if i >= ls.len() {
        ls
    } else if regex_is_match(pat, ls[i]) {
        let next = apply_at(ls, i, repl, sub);
        if multiple {
            scan_set(next, pat, repl, sub, multiple, i + 1)
        } else {
            next
        }
    } else {
        scan_set(ls, pat, repl, sub, multiple, i + 1)
    }
}

/// The text recorded by the extracting scan from index `i` on, starting
/// from `text`: each match records the line its placement points at (and
/// records nothing when the placement falls off the file), the scan stops
/// at the first match unless `multiple` is set, and the last recorded text
/// wins.
pub open spec fn scan_get(
    ls: Seq<Seq<char>>,
    pat: Seq<char>,
    repl: Replace,
    multiple: bool,
    text: Option<Seq<char>>,
    i: int,
) -> Option<Seq<char>>
    decreases ls.len() - i when 0 <= i
{
    if i >= ls.len() {
        text
    } else if regex_is_match(pat, ls[i]) {
        let next = match repl {
            Replace::MatchedText => Some(ls[i]),
            Replace::LineAbove => if i == 0 {
                text
            } else {
                Some(ls[i - 1])
            },
            Replace::LineBelow => if i == ls.len() - 1 {
                text
            } else {
                Some(ls[i + 1])
            },
        };
        if multiple {
            scan_get(ls, pat, repl, multiple, next, i + 1)
        } else {
            next
        }
    } else {
        scan_get(ls, pat, repl, multiple, text, i + 1)
    }
}

/// The region scan from index `i` on, with `s` and `e` the start and end
/// indices recorded so far: a line matching the start pattern moves the
/// start index, a line matching the end pattern moves the end index, and
/// without `multiple` the scan stops as soon as both have been recorded
/// (checked first after a start match, then after an end match).
pub open spec fn scan_region(
    ls: Seq<Seq<char>>,
    start_pat: Seq<char>,
    end_pat: Seq<char>,
    multiple: bool,
    s: Option<int>,
    e: Option<int>,
    i: int,
) -> (Option<int>, Option<int>)
    decreases ls.len() - i when 0 <= i
{
    if i >= ls.len() {
        (s, e)
    } else {
        let s1 = if regex_is_match(start_pat, ls[i]) {
            Some(i)
        } else {
            s
        };
        if regex_is_match(start_pat, ls[i]) && !multiple && e is Some {
            (s1, e)
        } else {
            let e1 = if regex_is_match(end_pat, ls[i]) {
                Some(i)
            } else {
                e
            };
            if regex_is_match(end_pat, ls[i]) && !multiple && s1 is Some {
                (s1, e1)
            } else {
                scan_region(ls, start_pat, end_pat, multiple, s1, e1, i + 1)
            }
        }
    }
}

/// The first index at or after `i` whose line matches `pat`, if any.
pub open spec fn first_match_from(ls: Seq<Seq<char>>, pat: Seq<char>, i: int) -> Option<int>
    decreases ls.len() - i when 0 <= i
{
    if i >= ls.len() {
        None
    } else if regex_is_match(pat, ls[i]) {
        Some(i)
    } else {
        first_match_from(ls, pat, i + 1)
    }
}

/// What `first_match_from` returns: the least matching index at or after
/// `i`, or `None` exactly when no line from `i` on matches.
pub proof fn lemma_first_match_from(ls: Seq<Seq<char>>, pat: Seq<char>, i: int)
    requires
        0 <= i,
    ensures
        match first_match_from(ls, pat, i) {
            Some(k) => i <= k < ls.len() && regex_is_match(pat, ls[k]) && (forall|j: int|
                i <= j < k ==> !regex_is_match(pat, ls[j])),
            None => forall|j: int| i <= j < ls.len() ==> !regex_is_match(pat, ls[j]),
        },
    decreases ls.len() - i,
{
    if i >= ls.len() {
    } else if regex_is_match(pat, ls[i]) {
    } else {
        lemma_first_match_from(ls, pat, i + 1);
    }
}

/// An index that matches, with none matching before it, is the first match.
pub proof fn lemma_first_match_is(ls: Seq<Seq<char>>, pat: Seq<char>, i: int, k: int)
    requires
        0 <= i <= k < ls.len(),
        regex_is_match(pat, ls[k]),
        forall|j: int| i <= j < k ==> !regex_is_match(pat, ls[j]),
    ensures
        first_match_from(ls, pat, i) == Some(k),
    decreases ls.len() - i,
{
    if i == k {
    } else {
        lemma_first_match_is(ls, pat, i + 1, k);
    }
}

/// Without `multiple`, the mutating scan applies exactly one placement, at
/// the first matching index, and changes nothing when no line matches.
pub proof fn lemma_scan_set_single(
    ls: Seq<Seq<char>>,
    pat: Seq<char>,
    repl: Replace,
    sub: Seq<char>,
    i: int,
)
    requires
        0 <= i,
    ensures
        scan_set(ls, pat, repl, sub, false, i) == match first_match_from(ls, pat, i) {
            None => ls,
            Some(k) => apply_at(ls, k, repl, sub),
        },
    decreases ls.len() - i,
{
    if i >= ls.len() {
    } else if regex_is_match(pat, ls[i]) {
    } else {
        lemma_scan_set_single(ls, pat, repl, sub, i + 1);
    }
}

/// The text the extracting scan records for one match index.
pub open spec fn get_at(
    ls: Seq<Seq<char>>,
    k: int,
    repl: Replace,
    text: Option<Seq<char>>,
) -> Option<Seq<char>> {
    match repl {
        Replace::MatchedText => Some(ls[k]),
        Replace::LineAbove => if k == 0 {
            text
        } else {
            Some(ls[k - 1])
        },
        Replace::LineBelow => if k == ls.len() - 1 {
            text
        } else {
            Some(ls[k + 1])
        },
    }
}

/// Without `multiple`, the extracting scan records the text of the first
/// matching index, and records nothing when no line matches.
pub proof fn lemma_scan_get_single(
    ls: Seq<Seq<char>>,
    pat: Seq<char>,
    repl: Replace,
    text: Option<Seq<char>>,
    i: int,
)
    requires
        0 <= i,
    ensures
        scan_get(ls, pat, repl, false, text, i) == match first_match_from(ls, pat, i) {
            None => text,
            Some(k) => get_at(ls, k, repl, text),
        },
    decreases ls.len() - i,
{
    if i >= ls.len() {
    } else if regex_is_match(pat, ls[i]) {
    } else {
        lemma_scan_get_single(ls, pat, repl, text, i + 1);
    }
}

/// With `multiple` and the `MatchedText` placement, the mutating scan
/// rewrites exactly the matching lines, each to `sub`.
pub proof fn lemma_scan_set_multiple_matched(
    ls: Seq<Seq<char>>,
    pat: Seq<char>,
    sub: Seq<char>,
    i: int,
)
    requires
        0 <= i,
    ensures
        ({
            let r = scan_set(ls, pat, Replace::MatchedText, sub, true, i);
            &&& r.len() == ls.len()
            &&& forall|j: int| 0 <= j < i && j < ls.len() ==> r[j] == ls[j]
            &&& forall|j: int|
                i <= j < ls.len() ==> r[j] == if regex_is_match(pat, ls[j]) {
                    sub
                } else {
                    ls[j]
                }
        }),
    decreases ls.len() - i,
{
    if i >= ls.len() {
    } else if regex_is_match(pat, ls[i]) {
        let next = ls.update(i, sub);
        lemma_scan_set_multiple_matched(next, pat, sub, i + 1);
        assert(forall|j: int| 0 <= j < ls.len() && j != i ==> next[j] == ls[j]);
    } else {
        lemma_scan_set_multiple_matched(ls, pat, sub, i + 1);
    }
}

/// The last index at or after `i` whose line matches `pat`, if any.
pub open spec fn last_match_from(ls: Seq<Seq<char>>, pat: Seq<char>, i: int) -> Option<int>
    decreases ls.len() - i when 0 <= i
{
    if i >= ls.len() {
        None
    } else {
        let rest = last_match_from(ls, pat, i + 1);
        if rest is Some {
            rest
        } else if regex_is_match(pat, ls[i]) {
            Some(i)
        } else {
            None
        }
    }
}

/// What `last_match_from` returns: the greatest matching index at or after
/// `i`, or `None` exactly when no line from `i` on matches.
pub proof fn lemma_last_match_from(ls: Seq<Seq<char>>, pat: Seq<char>, i: int)
    requires
        0 <= i,
    ensures
        match last_match_from(ls, pat, i) {
            Some(k) => i <= k < ls.len() && regex_is_match(pat, ls[k]) && (forall|j: int|
                k < j < ls.len() ==> !regex_is_match(pat, ls[j])),
            None => forall|j: int| i <= j < ls.len() ==> !regex_is_match(pat, ls[j]),
        },
    decreases ls.len() - i,
{
    if i >= ls.len() {
    } else {
        lemma_last_match_from(ls, pat, i + 1);
    }
}

/// An index that matches, with none matching after it, is the last match.
pub proof fn lemma_last_match_is(ls: Seq<Seq<char>>, pat: Seq<char>, i: int, k: int)
    requires
        0 <= i <= k < ls.len(),
        regex_is_match(pat, ls[k]),
        forall|j: int| k < j < ls.len() ==> !regex_is_match(pat, ls[j]),
    ensures
        last_match_from(ls, pat, i) == Some(k),
    decreases ls.len() - i,
{
    if i == k {
        lemma_last_match_from(ls, pat, i + 1);
    } else {
        lemma_last_match_is(ls, pat, i + 1, k);
    }
}

/// One recorded index, or the fallback when none was recorded.
pub open spec fn or_else(a: Option<int>, b: Option<int>) -> Option<int> {
    if a is Some {
        a
    } else {
        b
    }
}

/// With `multiple`, the region scan runs to the end of the file and the
/// last start index and last end index observed win.
pub proof fn lemma_scan_region_multiple(
    ls: Seq<Seq<char>>,
    start_pat: Seq<char>,
    end_pat: Seq<char>,
    s: Option<int>,
    e: Option<int>,
    i: int,
)
    requires
        0 <= i,
    ensures
        scan_region(ls, start_pat, end_pat, true, s, e, i) == (
            or_else(last_match_from(ls, start_pat, i), s),
            or_else(last_match_from(ls, end_pat, i), e),
        ),
    decreases ls.len() - i,
{
    if i >= ls.len() {
    } else {
        let s1 = if regex_is_match(start_pat, ls[i]) {
            Some(i)
        } else {
            s
        };
        let e1 = if regex_is_match(end_pat, ls[i]) {
            Some(i)
        } else {
            e
        };
        lemma_scan_region_multiple(ls, start_pat, end_pat, s1, e1, i + 1);
    }
}

/// Indices recorded by the region scan lie inside the line store.
pub proof fn lemma_scan_region_bounds(
    ls: Seq<Seq<char>>,
    start_pat: Seq<char>,
    end_pat: Seq<char>,
    multiple: bool,
    s: Option<int>,
    e: Option<int>,
    i: int,
)
    requires
        0 <= i,
        s matches Some(x) ==> 0 <= x < ls.len(),
        e matches Some(x) ==> 0 <= x < ls.len(),
    ensures
        ({
            let r = scan_region(ls, start_pat, end_pat, multiple, s, e, i);
            &&& (r.0 matches Some(x) ==> 0 <= x < ls.len())
            &&& (r.1 matches Some(x) ==> 0 <= x < ls.len())
        }),
    decreases ls.len() - i,
{
    if i >= ls.len() {
    } else {
        let s1 = if regex_is_match(start_pat, ls[i]) {
            Some(i)
        } else {
            s
        };
        if regex_is_match(start_pat, ls[i]) && !multiple && e is Some {
        } else {
            let e1 = if regex_is_match(end_pat, ls[i]) {
                Some(i)
            } else {
                e
            };
            if regex_is_match(end_pat, ls[i]) && !multiple && s1 is Some {
            } else {
                lemma_scan_region_bounds(ls, start_pat, end_pat, multiple, s1, e1, i + 1);
            }
        }
    }
}

/// The line store after a region splice: the lines strictly between `s` and
/// `e` are removed and the single line `sub` is inserted immediately after
/// `s`; both boundary lines stay.
pub open spec fn splice_region(ls: Seq<Seq<char>>, s: int, e: int, sub: Seq<char>) -> Seq<
    Seq<char>,
> {
    ls.subrange(0, s + 1) + seq![sub] + ls.subrange(e, ls.len() as int)
}

/// Applies the mutating scan to the line store in place.
pub fn mutate_lines(
    lines: &mut Vec<String>,
    rgx: &CompiledRegex,
    repl: Replace,
    sub: &str,
    multiple: bool,
)
    ensures
        final(lines).deep_view() == scan_set(
            old(lines).deep_view(),
            rgx.pattern(),
            repl,
            sub@,
            multiple,
            0,
        ),
{
    let ghost orig = lines.deep_view();
    let ghost pat = rgx.pattern();
    let mut i: usize = 0;
    while i < lines.len()
        invariant
            0 <= i <= lines.len(),
            orig == old(lines).deep_view(),
            pat == rgx.pattern(),
            scan_set(orig, pat, repl, sub@, multiple, 0) == scan_set(
                lines.deep_view(),
                pat,
                repl,
                sub@,
                multiple,
                i as int,
            ),
        decreases lines.len() - i,
    {
        let ghost before = lines.deep_view();
        let line_matches = rgx.is_match(lines[i].as_str());
        proof {
            assert(before.len() == lines@.len());
            assert(before[i as int] == lines@[i as int]@);
        }
        if line_matches {
            match repl {
                Replace::MatchedText => {
                    lines[i] = String::from_str(sub);
                },
                Replace::LineAbove => {
                    if i != 0 {
                        lines[i - 1] = String::from_str(sub);
                    }
                },
                Replace::LineBelow => {
                    if i != lines.len() - 1 {
                        lines[i + 1] = String::from_str(sub);
                    }
                },
            }
            proof {
                assert(lines.deep_view() =~= apply_at(before, i as int, repl, sub@));
                assert(scan_set(before, pat, repl, sub@, multiple, i as int) == if multiple {
                    scan_set(
                        apply_at(before, i as int, repl, sub@),
                        pat,
                        repl,
                        sub@,
                        multiple,
                        i + 1,
                    )
                } else {
                    apply_at(before, i as int, repl, sub@)
                });
            }
            if !multiple {
                return ;
            }
        } else {
            proof {
                assert(scan_set(before, pat, repl, sub@, multiple, i as int) == scan_set(
                    before,
                    pat,
                    repl,
                    sub@,
                    multiple,
                    i + 1,
                ));
            }
        }
        i += 1;
    }
}

/// Runs the extracting scan over the line store.
pub fn scan_matched_text(
    lines: &Vec<String>,
    rgx: &CompiledRegex,
    repl: Replace,
    multiple: bool,
) -> (r: Option<String>)
    ensures
        match r {
            Some(t) => scan_get(lines.deep_view(), rgx.pattern(), repl, multiple, None, 0)
                == Some(t@),
            None => scan_get(lines.deep_view(), rgx.pattern(), repl, multiple, None, 0) is None,
        },
{
    let ghost dv = lines.deep_view();
    let ghost pat = rgx.pattern();
    let mut text: Option<String> = None;
    let mut i: usize = 0;
    while i < lines.len()
        invariant
            0 <= i <= lines.len(),
            dv == lines.deep_view(),
            pat == rgx.pattern(),
            scan_get(dv, pat, repl, multiple, None, 0) == scan_get(
                dv,
                pat,
                repl,
                multiple,
                opt_view(text),
                i as int,
            ),
        decreases lines.len() - i,
    {
        let line_matches = rgx.is_match(lines[i].as_str());
        if line_matches {
            match repl {
                Replace::MatchedText => {
                    text = Some(lines[i].clone());
                },
                Replace::LineAbove => {
                    if i != 0 {
                        text = Some(lines[i - 1].clone());
                    }
                },
                Replace::LineBelow => {
                    if i != lines.len() - 1 {
                        text = Some(lines[i + 1].clone());
                    }
                },
            }
            if !multiple {
                return text;
            }
        }
        i += 1;
    }
    text
}

/// The pair recorded by the region scan over the whole line store.
pub fn locate_region(
    lines: &Vec<String>,
    start_rgx: &CompiledRegex,
    end_rgx: &CompiledRegex,
    multiple: bool,
) -> (r: (Option<usize>, Option<usize>))
    ensures
        ({
            let spec_r = scan_region(
                lines.deep_view(),
                start_rgx.pattern(),
                end_rgx.pattern(),
                multiple,
                None,
                None,
                0,
            );
            &&& opt_int(r.0) == spec_r.0
            &&& opt_int(r.1) == spec_r.1
        }),
{
    let ghost dv = lines.deep_view();
    let ghost sp = start_rgx.pattern();
    let ghost ep = end_rgx.pattern();
    let mut s: Option<usize> = None;
    let mut e: Option<usize> = None;
    let mut i: usize = 0;
    while i < lines.len()
        invariant
            0 <= i <= lines.len(),
            dv == lines.deep_view(),
            sp == start_rgx.pattern(),
            ep == end_rgx.pattern(),
            scan_region(dv, sp, ep, multiple, None, None, 0) == scan_region(
                dv,
                sp,
                ep,
                multiple,
                opt_int(s),
                opt_int(e),
                i as int,
            ),
        decreases lines.len() - i,
    {
        let line = lines[i].as_str();
        if start_rgx.is_match(line) {
            s = Some(i);
            if !multiple && e.is_some() {
                return (s, e);
            }
        }
        if end_rgx.is_match(line) {
            e = Some(i);
            if !multiple && s.is_some() {
                return (s, e);
            }
        }
        i += 1;
    }
    (s, e)
}

/// A recorded index as a mathematical one.
pub open spec fn opt_int(o: Option<usize>) -> Option<int> {
    match o {
        None => None,
        Some(u) => Some(u as int),
    }
}

/// The view of an optional owned string.
pub open spec fn opt_view(o: Option<String>) -> Option<Seq<char>> {
    match o {
        None => None,
        Some(t) => Some(t@),
    }
}

/// Splices the region: keeps lines up to and including `s`, then `sub`,
/// then the lines from `e` on.
pub fn splice_lines(lines: &Vec<String>, s: usize, e: usize, sub: &str) -> (r: Vec<String>)
    requires
        s < e,
        e < lines@.len(),
    ensures
        r.deep_view() == splice_region(lines.deep_view(), s as int, e as int, sub@),
{
    let ghost dv = lines.deep_view();
    let mut out: Vec<String> = Vec::new();
    let mut i: usize = 0;
    while i <= s
        invariant
            0 <= i <= s + 1,
            s < e < lines@.len(),
            dv == lines.deep_view(),
            out.deep_view() =~= dv.subrange(0, i as int),
        decreases s + 1 - i,
    {
        let ghost prev = out.deep_view();
        out.push(lines[i].clone());
        proof {
            assert(out.deep_view() =~= prev.push(dv[i as int]));
            assert(prev.push(dv[i as int]) =~= dv.subrange(0, i + 1));
        }
        i += 1;
    }
    let ghost mid = out.deep_view();
    out.push(String::from_str(sub));
    proof {
        assert(out.deep_view() =~= mid.push(sub@));
        assert(mid.push(sub@) =~= dv.subrange(0, s + 1) + seq![sub@]);
    }
    let mut j: usize = e;
    while j < lines.len()
        invariant
            e <= j <= lines@.len(),
            s < e < lines@.len(),
            dv == lines.deep_view(),
            out.deep_view() =~= dv.subrange(0, s + 1) + seq![sub@] + dv.subrange(
                e as int,
                j as int,
            ),
        decreases lines@.len() - j,
    {
        let ghost prev = out.deep_view();
        out.push(lines[j].clone());
        proof {
            assert(out.deep_view() =~= prev.push(dv[j as int]));
            assert(prev.push(dv[j as int]) =~= dv.subrange(0, s + 1) + seq![sub@] + dv.subrange(
                e as int,
                j + 1,
            ));
        }
        j += 1;
    }
    out
}

} // verus!
