//! Laws of the engine, each proved once and for all over the engine's own
//! specification functions.

use vstd::prelude::*;

verus! {

use crate::codec::{
    extract_spec, lemma_extract_render, lemma_render_nl_free, render_spec, value_marker,
};
use crate::engine::{get_content_spec, set_content_spec, SettingError};
use crate::lines::{
    join_of, lemma_join_of_lines, lemma_lines_of_join, lemma_split_nl_free, lemma_split_nonempty,
    lines_of,
};
use crate::matcher::{
    apply_at, first_match_from, last_match_from, lemma_first_match_from, lemma_first_match_is,
    lemma_last_match_from, lemma_last_match_is, lemma_scan_get_single,
    lemma_scan_region_multiple, lemma_scan_set_multiple_matched, lemma_scan_set_single, scan_get,
    scan_region, scan_set, splice_region,
};
use crate::regexes::{regex_is_match, regex_valid};
use crate::setting::{Pattern, Replace, Setting};
use crate::text::find_spec;

/// Round trip: for a single-line, `MatchedText`, first-match setting whose
/// template carries the placeholder, if some line of the file matches the
/// pattern (the first such being line `k`) and the rendered line still
/// matches the pattern, then `get` after `set` returns exactly the value
/// that was set — for any value free of the line separator.
pub proof fn lemma_set_get_round_trip(setting: Setting, value: Seq<char>, content: Seq<char>, k: int)
    requires
        setting.pattern matches Pattern::Line(p) && regex_valid(p@),
        setting.replace_rule_spec() == Replace::MatchedText,
        !setting.multiple_spec(),
        find_spec(setting.substitute@, value_marker()) is Some,
        !setting.substitute@.contains('\n'),
        !value.contains('\n'),
        ({
            let ls = lines_of(content);
            let p = setting.pattern->Line_0;
            &&& 0 <= k < ls.len()
            &&& regex_is_match(p@, ls[k])
            &&& forall|j: int| 0 <= j < k ==> !regex_is_match(p@, ls[j])
        }),
        regex_is_match(
            setting.pattern->Line_0@,
            render_spec(setting.substitute@, value),
        ),
    ensures
        set_content_spec(setting, value, content) is Ok,
        get_content_spec(
            setting,
            set_content_spec(setting, value, content)->Ok_0,
        ) == Ok::<Seq<char>, SettingError>(value),
{
    let p = setting.pattern->Line_0;
    let t = setting.substitute@;
    let sub = render_spec(t, value);
    let ls = lines_of(content);
    lemma_first_match_is(ls, p@, 0, k);
    lemma_scan_set_single(ls, p@, Replace::MatchedText, sub, 0);
    let ls2 = ls.update(k, sub);
    assert(set_content_spec(setting, value, content) == Ok::<Seq<char>, SettingError>(
        join_of(ls2),
    ));
    let content2 = join_of(ls2);
    lemma_split_nl_free(content, Seq::empty());
    lemma_split_nonempty(content, Seq::empty());
    lemma_render_nl_free(t, value);
    assert(forall|j: int| 0 <= j < ls2.len() ==> !(#[trigger] ls2[j]).contains('\n'));
    lemma_lines_of_join(ls2);
    assert(lines_of(content2) == ls2);
    assert(forall|j: int| 0 <= j < k ==> !regex_is_match(p@, ls2[j]));
    assert(regex_is_match(p@, ls2[k]));
    lemma_first_match_is(ls2, p@, 0, k);
    lemma_scan_get_single(ls2, p@, Replace::MatchedText, None, 0);
    assert(scan_get(ls2, p@, Replace::MatchedText, false, None, 0) == Some(sub));
    lemma_extract_render(t, value);
    assert(extract_spec(t, sub) == Some(value));
}

/// Idempotence: for a single-line, `MatchedText` setting whose rendered
/// line is free of the separator and still matches the pattern, applying
/// `set` twice in succession yields content identical to applying it once —
/// whether or not every match is processed.
pub proof fn lemma_set_idempotent(setting: Setting, value: Seq<char>, content: Seq<char>)
    requires
        setting.pattern matches Pattern::Line(p) && regex_valid(p@),
        setting.replace_rule_spec() == Replace::MatchedText,
        !setting.substitute@.contains('\n'),
        !value.contains('\n'),
        regex_is_match(
            setting.pattern->Line_0@,
            render_spec(setting.substitute@, value),
        ),
    ensures
        set_content_spec(setting, value, content) is Ok,
        set_content_spec(
            setting,
            value,
            set_content_spec(setting, value, content)->Ok_0,
        ) == set_content_spec(setting, value, content),
{
    let p = setting.pattern->Line_0;
    let t = setting.substitute@;
    let sub = render_spec(t, value);
    let ls = lines_of(content);
    lemma_split_nl_free(content, Seq::empty());
    lemma_split_nonempty(content, Seq::empty());
    lemma_render_nl_free(t, value);
    let m = setting.multiple_spec();
    let ls2 = scan_set(ls, p@, Replace::MatchedText, sub, m, 0);
    if m {
        lemma_scan_set_multiple_matched(ls, p@, sub, 0);
        assert(forall|j: int| 0 <= j < ls2.len() ==> !(#[trigger] ls2[j]).contains('\n'));
        lemma_lines_of_join(ls2);
        let ls3 = scan_set(ls2, p@, Replace::MatchedText, sub, m, 0);
        lemma_scan_set_multiple_matched(ls2, p@, sub, 0);
        assert forall|j: int| 0 <= j < ls2.len() implies ls3[j] == ls2[j] by {
            if regex_is_match(p@, ls[j]) {
                assert(ls2[j] == sub);
            } else {
                assert(ls2[j] == ls[j]);
            }
        }
        assert(ls3 =~= ls2);
    } else {
        lemma_scan_set_single(ls, p@, Replace::MatchedText, sub, 0);
        lemma_first_match_from(ls, p@, 0);
        match first_match_from(ls, p@, 0) {
            None => {
                assert(ls2 == ls);
                lemma_lines_of_join(ls);
                lemma_scan_set_single(ls, p@, Replace::MatchedText, sub, 0);
            },
            Some(k) => {
                assert(ls2 == ls.update(k, sub));
                assert(forall|j: int| 0 <= j < ls2.len() ==> !(#[trigger] ls2[j]).contains('\n'));
                lemma_lines_of_join(ls2);
                assert(regex_is_match(p@, ls2[k]));
                assert(forall|j: int| 0 <= j < k ==> !regex_is_match(p@, ls2[j]));
                lemma_first_match_is(ls2, p@, 0, k);
                lemma_scan_set_single(ls2, p@, Replace::MatchedText, sub, 0);
                assert(ls2.update(k, sub) =~= ls2);
            },
        }
    }
}

/// Idempotence for the adjacent placements: for a single-line, first-match
/// setting placing on the line above or below, whose rendered line does
/// not itself match the pattern and carries no separator, applying `set`
/// twice yields content identical to applying it once.
pub proof fn lemma_set_adjacent_idempotent(setting: Setting, value: Seq<char>, content: Seq<char>)
    requires
        setting.pattern matches Pattern::Line(p) && regex_valid(p@),
        setting.replace_rule_spec() == Replace::LineAbove || setting.replace_rule_spec()
            == Replace::LineBelow,
        !setting.multiple_spec(),
        !setting.substitute@.contains('\n'),
        !value.contains('\n'),
        !regex_is_match(
            setting.pattern->Line_0@,
            render_spec(setting.substitute@, value),
        ),
    ensures
        set_content_spec(setting, value, content) is Ok,
        set_content_spec(
            setting,
            value,
            set_content_spec(setting, value, content)->Ok_0,
        ) == set_content_spec(setting, value, content),
{
    let p = setting.pattern->Line_0;
    let t = setting.substitute@;
    let sub = render_spec(t, value);
    let ls = lines_of(content);
    let repl = setting.replace_rule_spec();
    lemma_split_nl_free(content, Seq::empty());
    lemma_split_nonempty(content, Seq::empty());
    lemma_render_nl_free(t, value);
    lemma_scan_set_single(ls, p@, repl, sub, 0);
    lemma_first_match_from(ls, p@, 0);
    let ls2 = scan_set(ls, p@, repl, sub, false, 0);
    match first_match_from(ls, p@, 0) {
        None => {
            assert(ls2 == ls);
            lemma_lines_of_join(ls);
            lemma_scan_set_single(ls, p@, repl, sub, 0);
        },
        Some(k) => {
            assert(ls2 == apply_at(ls, k, repl, sub));
            assert(ls2.len() == ls.len());
            assert(ls2[k] == ls[k]);
            assert(forall|j: int| 0 <= j < ls.len() && ls2[j] != ls[j] ==> ls2[j] == sub);
            assert(forall|j: int| 0 <= j < ls2.len() ==> !(#[trigger] ls2[j]).contains('\n'));
            lemma_lines_of_join(ls2);
            assert(regex_is_match(p@, ls2[k]));
            assert(forall|j: int| 0 <= j < k ==> !regex_is_match(p@, ls2[j]));
            lemma_first_match_is(ls2, p@, 0, k);
            lemma_scan_set_single(ls2, p@, repl, sub, 0);
            assert(apply_at(ls2, k, repl, sub) =~= ls2);
        },
    }
}

/// Idempotence for region patterns under the scan-all policy: when the
/// rendered line matches neither boundary pattern and carries no
/// separator, applying `set` twice yields content identical to applying it
/// once.
pub proof fn lemma_region_set_idempotent(
    setting: Setting,
    value: Seq<char>,
    content: Seq<char>,
    s: int,
    e: int,
)
    requires
        setting.pattern matches Pattern::Region(pair) && regex_valid(pair[0]@) && regex_valid(
            pair[1]@,
        ),
        setting.multiple_spec(),
        !setting.substitute@.contains('\n'),
        !value.contains('\n'),
        ({
            let ls = lines_of(content);
            let pair = setting.pattern->Region_0;
            &&& last_match_from(ls, pair[0]@, 0) == Some(s)
            &&& last_match_from(ls, pair[1]@, 0) == Some(e)
        }),
        s < e,
        !regex_is_match(setting.pattern->Region_0[0]@, render_spec(setting.substitute@, value)),
        !regex_is_match(setting.pattern->Region_0[1]@, render_spec(setting.substitute@, value)),
    ensures
        set_content_spec(setting, value, content) is Ok,
        set_content_spec(
            setting,
            value,
            set_content_spec(setting, value, content)->Ok_0,
        ) == set_content_spec(setting, value, content),
{
    let pair = setting.pattern->Region_0;
    let sp = pair[0]@;
    let ep = pair[1]@;
    let t = setting.substitute@;
    let sub = render_spec(t, value);
    let ls = lines_of(content);
    lemma_scan_region_multiple(ls, sp, ep, None, None, 0);
    lemma_last_match_from(ls, sp, 0);
    lemma_last_match_from(ls, ep, 0);
    assert(0 <= s && e < ls.len());
    let spliced = splice_region(ls, s, e, sub);
    assert(set_content_spec(setting, value, content) == Ok::<Seq<char>, SettingError>(
        join_of(spliced),
    ));
    lemma_split_nl_free(content, Seq::empty());
    lemma_split_nonempty(content, Seq::empty());
    lemma_render_nl_free(t, value);
    assert(forall|j: int| 0 <= j < spliced.len() ==> !(#[trigger] spliced[j]).contains('\n'));
    lemma_lines_of_join(spliced);
    let content2 = join_of(spliced);
    assert(lines_of(content2) == spliced);
    assert(spliced.len() == s + 2 + (ls.len() - e));
    assert(forall|j: int| 0 <= j <= s ==> spliced[j] == ls[j]);
    assert(spliced[s + 1] == sub);
    assert(forall|j: int| s + 2 <= j < spliced.len() ==> spliced[j] == ls[e + (j - s - 2)]);
    assert(regex_is_match(sp, spliced[s]));
    assert(forall|j: int| s < j < spliced.len() ==> !regex_is_match(sp, spliced[j]));
    lemma_last_match_is(spliced, sp, 0, s);
    assert(regex_is_match(ep, spliced[s + 2]));
    assert(forall|j: int| s + 2 < j < spliced.len() ==> !regex_is_match(ep, spliced[j]));
    lemma_last_match_is(spliced, ep, 0, s + 2);
    lemma_scan_region_multiple(spliced, sp, ep, None, None, 0);
    let spliced2 = splice_region(spliced, s, s + 2, sub);
    assert(set_content_spec(setting, value, content2) == Ok::<Seq<char>, SettingError>(
        join_of(spliced2),
    ));
    assert(spliced2 =~= spliced);
}

/// Region isolation: a `set` through a region pattern replaces only the
/// region's interior; every line up to and including the start boundary,
/// and every line from the end boundary on, is carried over unchanged.
pub proof fn lemma_region_isolation(
    setting: Setting,
    value: Seq<char>,
    content: Seq<char>,
    s: int,
    e: int,
)
    requires
        setting.pattern matches Pattern::Region(pair) && regex_valid(pair[0]@) && regex_valid(
            pair[1]@,
        ),
        ({
            let ls = lines_of(content);
            let pair = setting.pattern->Region_0;
            scan_region(ls, pair[0]@, pair[1]@, setting.multiple_spec(), None, None, 0) == (
                Some(s),
                Some(e),
            )
        }),
        s < e,
        e < lines_of(content).len(),
        0 <= s,
    ensures
        ({
            let ls = lines_of(content);
            let sub = render_spec(setting.substitute@, value);
            let spliced = splice_region(ls, s, e, sub);
            &&& set_content_spec(setting, value, content) == Ok::<Seq<char>, SettingError>(
                join_of(spliced),
            )
            &&& spliced.len() == s + 2 + (ls.len() - e)
            &&& forall|j: int| 0 <= j <= s ==> spliced[j] == ls[j]
            &&& spliced[s + 1] == sub
            &&& forall|j: int| e <= j < ls.len() ==> spliced[s + 2 + (j - e)] == ls[j]
        }),
{
    let ls = lines_of(content);
    let sub = render_spec(setting.substitute@, value);
    let spliced = splice_region(ls, s, e, sub);
    assert(forall|j: int| 0 <= j <= s ==> spliced[j] == ls[j]);
    assert(spliced[s + 1] == sub);
    assert(forall|j: int| e <= j < ls.len() ==> spliced[s + 2 + (j - e)] == ls[j]);
}

/// Placement correctness: without `multiple`, a single-line `set` applies
/// exactly one placement, at the first matching line `k`: `LineAbove`
/// writes to line `k - 1` and is a no-op on the whole content when the
/// match is on the first line; `LineBelow` writes to line `k + 1` and is a
/// no-op when the match is on the last line.
pub proof fn lemma_placement(setting: Setting, value: Seq<char>, content: Seq<char>, k: int)
    requires
        setting.pattern matches Pattern::Line(p) && regex_valid(p@),
        !setting.multiple_spec(),
        ({
            let ls = lines_of(content);
            let p = setting.pattern->Line_0;
            &&& 0 <= k < ls.len()
            &&& regex_is_match(p@, ls[k])
            &&& forall|j: int| 0 <= j < k ==> !regex_is_match(p@, ls[j])
        }),
    ensures
        ({
            let ls = lines_of(content);
            let sub = render_spec(setting.substitute@, value);
            let repl = setting.replace_rule_spec();
            &&& set_content_spec(setting, value, content) == Ok::<Seq<char>, SettingError>(
                join_of(apply_at(ls, k, repl, sub)),
            )
            &&& (repl == Replace::LineAbove && k == 0 ==> set_content_spec(setting, value, content)
                == Ok::<Seq<char>, SettingError>(content))
            &&& (repl == Replace::LineAbove && k > 0 ==> apply_at(ls, k, repl, sub) == ls.update(
                k - 1,
                sub,
            ))
            &&& (repl == Replace::LineBelow && k == ls.len() - 1 ==> set_content_spec(
                setting,
                value,
                content,
            ) == Ok::<Seq<char>, SettingError>(content))
            &&& (repl == Replace::LineBelow && k < ls.len() - 1 ==> apply_at(ls, k, repl, sub)
                == ls.update(k + 1, sub))
        }),
{
    let ls = lines_of(content);
    let p = setting.pattern->Line_0;
    let sub = render_spec(setting.substitute@, value);
    let repl = setting.replace_rule_spec();
    lemma_first_match_is(ls, p@, 0, k);
    lemma_scan_set_single(ls, p@, repl, sub, 0);
    lemma_join_of_lines(content);
}

/// Multiple flag, single-line patterns: without `multiple` only the first
/// matching line's placement is applied (`lemma_placement` pins it); with
/// `multiple` and the `MatchedText` placement, every matching line, and
/// only the matching lines, are rewritten to the rendered value.
pub proof fn lemma_multiple_matched(setting: Setting, value: Seq<char>, content: Seq<char>)
    requires
        setting.pattern matches Pattern::Line(p) && regex_valid(p@),
        setting.replace_rule_spec() == Replace::MatchedText,
        setting.multiple_spec(),
    ensures
        ({
            let ls = lines_of(content);
            let p = setting.pattern->Line_0;
            let sub = render_spec(setting.substitute@, value);
            let r = scan_set(ls, p@, Replace::MatchedText, sub, true, 0);
            &&& set_content_spec(setting, value, content) == Ok::<Seq<char>, SettingError>(
                join_of(r),
            )
            &&& r.len() == ls.len()
            &&& forall|j: int|
                0 <= j < ls.len() ==> r[j] == if regex_is_match(p@, ls[j]) {
                    sub
                } else {
                    ls[j]
                }
        }),
{
    let ls = lines_of(content);
    let p = setting.pattern->Line_0;
    let sub = render_spec(setting.substitute@, value);
    lemma_scan_set_multiple_matched(ls, p@, sub, 0);
}

/// Multiple flag, region patterns: with `multiple` the region scan runs to
/// the end of the file, and the last observed start index and last observed
/// end index are the pair used.
pub proof fn lemma_multiple_region(ls: Seq<Seq<char>>, start_pat: Seq<char>, end_pat: Seq<char>)
    ensures
        scan_region(ls, start_pat, end_pat, true, None, None, 0) == (
            last_match_from(ls, start_pat, 0),
            last_match_from(ls, end_pat, 0),
        ),
{
    lemma_scan_region_multiple(ls, start_pat, end_pat, None, None, 0);
}

} // verus!
