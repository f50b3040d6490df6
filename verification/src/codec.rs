//! The value codec: rendering a literal template whose `{value}` placeholder
//! is replaced by a value, and decoding a value back out of matched text by
//! locating the template's literal scaffolding around it.
//!
//! All offsets are character (Unicode scalar) offsets, never byte offsets.

use vstd::prelude::*;

verus! {

use vstd::string::StrSliceExecFns;
use vstd::string::StringExecFns;

use crate::text::{find_from, find_from_spec, find_spec, lemma_find_from_spec, occurs_at};

/// The placeholder marker `{value}`.
pub open spec fn value_marker() -> Seq<char> {
    seq!['{', 'v', 'a', 'l', 'u', 'e', '}']
}

/// The template with the first occurrence of `{value}` replaced by `v`;
/// a template without the placeholder renders unchanged.
pub open spec fn render_spec(t: Seq<char>, v: Seq<char>) -> Seq<char> {
    match find_spec(t, value_marker()) {
        None => t,
        Some(i) => t.take(i) + v + t.skip(i + 7),
    }
}

/// The value recovered from `x`, matched text that is expected to carry the
/// template's literal scaffolding around a value:
/// the scaffolding is re-anchored inside `x` at the first position where the
/// literal prefix occurs with the literal suffix somewhere at or after it;
/// the value then starts at that position plus the prefix length, and its
/// length is the length of `x` minus the prefix and suffix lengths.
/// `None` when the placeholder is absent or the scaffolding does not occur.
pub open spec fn extract_spec(t: Seq<char>, x: Seq<char>) -> Option<Seq<char>> {
    match find_spec(t, value_marker()) {
        None => None,
        Some(vp) => {
            let prefix = t.take(vp);
            let suffix = t.skip(vp + 7);
            match find_spec(x, prefix) {
                None => None,
                Some(i) => match find_from_spec(x, suffix, i + prefix.len()) {
                    None => None,
                    Some(_) => Some(
                        x.subrange(i + prefix.len(), x.len() - suffix.len()),
                    ),
                },
            }
        },
    }
}

/// Decoding recovers exactly what rendering spliced in: for any template
/// that contains the placeholder, `extract` applied to `render`'s output
/// returns the rendered value.
pub proof fn lemma_extract_render(t: Seq<char>, v: Seq<char>)
    requires
        find_spec(t, value_marker()) is Some,
    ensures
        extract_spec(t, render_spec(t, v)) == Some(v),
{
    let vp = find_spec(t, value_marker())->0;
    lemma_find_from_spec(t, value_marker(), 0);
    let prefix = t.take(vp);
    let suffix = t.skip(vp + 7);
    let x = prefix + v + suffix;
    assert(render_spec(t, v) == x);
    assert(occurs_at(x, prefix, 0)) by {
        assert(x.subrange(0, prefix.len() as int) =~= prefix);
    }
    assert(find_spec(x, prefix) == Some(0int));
    let j = prefix.len() + v.len() as int;
    assert(occurs_at(x, suffix, j)) by {
        assert(x.subrange(j, j + suffix.len()) =~= suffix);
    }
    lemma_find_from_spec(x, suffix, prefix.len() as int);
    assert(find_from_spec(x, suffix, prefix.len() as int) is Some);
    assert(x.subrange(prefix.len() as int, x.len() - suffix.len()) =~= v);
}

/// Rendering a separator-free template with a separator-free value yields a
/// separator-free line.
pub proof fn lemma_render_nl_free(t: Seq<char>, v: Seq<char>)
    requires
        !t.contains('\n'),
        !v.contains('\n'),
    ensures
        !render_spec(t, v).contains('\n'),
{
    match find_spec(t, value_marker()) {
        None => {},
        Some(i) => {
            lemma_find_from_spec(t, value_marker(), 0);
            let r = t.take(i) + v + t.skip(i + 7);
            assert(forall|k: int| 0 <= k < t.len() ==> t[k] != '\n');
            assert(forall|k: int| 0 <= k < v.len() ==> v[k] != '\n');
            assert forall|k: int| 0 <= k < r.len() implies r[k] != '\n' by {
                if k < i {
                    assert(r[k] == t[k]);
                } else if k < i + v.len() {
                    assert(r[k] == v[k - i]);
                } else {
                    assert(r[k] == t[k - v.len() + 7]);
                }
            }
        },
    }
}

/// Renders the template with `value` in place of the first `{value}`.
pub fn render(template: &str, value: &str) -> (r: String)
    ensures
        r@ == render_spec(template@, value@),
{
    proof {
        reveal_strlit("{value}");
        assert("{value}"@ =~= value_marker());
    }
    match find_from(template, "{value}", 0) {
        None => String::from_str(template),
        Some(i) => {
            proof {
                lemma_find_from_spec(template@, value_marker(), 0);
            }
            let n = template.unicode_len();
            let mut out = String::from_str(template.substring_char(0, i));
            out.append(value);
            out.append(template.substring_char(i + 7, n));
            proof {
                assert(template@.subrange(0, i as int) =~= template@.take(i as int));
                assert(template@.subrange(i + 7, n as int) =~= template@.skip(i + 7));
            }
            out
        },
    }
}

/// Recovers the value from matched text `text`, per `extract_spec`.
pub fn extract(template: &str, text: &str) -> (r: Option<String>)
    ensures
        match r {
            Some(v) => extract_spec(template@, text@) == Some(v@),
            None => extract_spec(template@, text@) is None,
        },
{
    proof {
        reveal_strlit("{value}");
        assert("{value}"@ =~= value_marker());
    }
    let vp = match find_from(template, "{value}", 0) {
        None => {
            return None;
        },
        Some(vp) => vp,
    };
    proof {
        lemma_find_from_spec(template@, value_marker(), 0);
    }
    let tn = template.unicode_len();
    let prefix = template.substring_char(0, vp);
    let suffix = template.substring_char(vp + 7, tn);
    proof {
        assert(prefix@ =~= template@.take(vp as int));
        assert(suffix@ =~= template@.skip(vp + 7));
    }
    let i = match find_from(text, prefix, 0) {
        None => {
            return None;
        },
        Some(i) => i,
    };
    proof {
        lemma_find_from_spec(text@, prefix@, 0);
    }
    let p = prefix.unicode_len();
    let s = suffix.unicode_len();
    let n = text.unicode_len();
    match find_from(text, suffix, i + p) {
        None => None,
        Some(j) => {
            proof {
                lemma_find_from_spec(text@, suffix@, i + p);
            }
            Some(String::from_str(text.substring_char(i + p, n - s)))
        },
    }
}

} // verus!
