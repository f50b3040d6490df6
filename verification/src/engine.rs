//! The setting engine: applying one setting to one file's content, either
//! writing a rendered value in (`set_content`) or reading the current value
//! back out (`get_content`), and resolving a setting by name.

use vstd::prelude::*;

verus! {

use crate::codec::{extract, extract_spec, render, render_spec};
use crate::lines::{join_lines, join_of, lines_of, split_lines};
use crate::matcher::{
    lemma_scan_region_bounds, locate_region, mutate_lines, scan_get, scan_matched_text,
    scan_region, scan_set, splice_lines, splice_region,
};
use crate::regexes::{regex_valid, CompiledRegex};
use crate::setting::{Pattern, Setting};
use crate::text::str_eq;

/// Why an operation on a setting failed.
#[derive(Debug, Clone, Copy, PartialEq, Eq, Structural)]
pub enum SettingError {
    /// No setting of the requested name exists in the registry.
    UnknownSetting,
    /// The setting's target file could not be read.
    FileUnreadable,
    /// The setting's target file could not be written.
    FileUnwritable,
    /// A pattern in the setting does not compile as a regular expression.
    RegexCompileError,
    /// The file named by a `read_value_path` value could not be read.
    ValuePathUnreadable,
    /// The pattern matched no line.
    NoMatch,
    /// The region's bounds are missing or out of order.
    InvalidRegion,
    /// The template's scaffolding was not found in the matched text.
    DecodeFailure,
    /// The mapping file handed to `load` does not parse.
    MalformedLoadFile,
}

/// The new content produced by applying `setting` with the already-resolved
/// `value` to `content`, or the error: the template is rendered, the lines
/// are scanned and mutated per the pattern and placement, and rejoined.
/// A line pattern that matches nothing leaves the content's lines unchanged;
/// a region whose bounds are missing or out of order is an error and nothing
/// is written.
pub open spec fn set_content_spec(setting: Setting, value: Seq<char>, content: Seq<char>) -> Result<
    Seq<char>,
    SettingError,
> {
    let sub = render_spec(setting.substitute@, value);
    let ls = lines_of(content);
    match setting.pattern {
        Pattern::Line(p) => if !regex_valid(p@) {
            Err(SettingError::RegexCompileError)
        } else {
            Ok(
                join_of(
                    scan_set(
                        ls,
                        p@,
                        setting.replace_rule_spec(),
                        sub,
                        setting.multiple_spec(),
                        0,
                    ),
                ),
            )
        },
        Pattern::Region(pair) => if !regex_valid(pair[0]@) || !regex_valid(pair[1]@) {
            Err(SettingError::RegexCompileError)
        } else {
            let r = scan_region(ls, pair[0]@, pair[1]@, setting.multiple_spec(), None, None, 0);
            match r {
                (Some(s), Some(e)) => if s < e {
                    Ok(join_of(splice_region(ls, s, e, sub)))
                } else {
                    Err(SettingError::InvalidRegion)
                },
                _ => Err(SettingError::InvalidRegion),
            }
        },
    }
}

/// The value read by applying `setting` to `content`, or the error: the
/// matched text is the line the placement points at (for a line pattern) or
/// the region's interior lines joined with separators (for a region
/// pattern), and the value is decoded out of it by the codec.
pub open spec fn get_content_spec(setting: Setting, content: Seq<char>) -> Result<
    Seq<char>,
    SettingError,
> {
    let ls = lines_of(content);
    match setting.pattern {
        Pattern::Line(p) => if !regex_valid(p@) {
            Err(SettingError::RegexCompileError)
        } else {
            match scan_get(
                ls,
                p@,
                setting.replace_rule_spec(),
                setting.multiple_spec(),
                None,
                0,
            ) {
                None => Err(SettingError::NoMatch),
                Some(t) => match extract_spec(setting.substitute@, t) {
                    None => Err(SettingError::DecodeFailure),
                    Some(v) => Ok(v),
                },
            }
        },
        Pattern::Region(pair) => if !regex_valid(pair[0]@) || !regex_valid(pair[1]@) {
            Err(SettingError::RegexCompileError)
        } else {
            let r = scan_region(ls, pair[0]@, pair[1]@, setting.multiple_spec(), None, None, 0);
            match r {
                (Some(s), Some(e)) => if s < e {
                    match extract_spec(setting.substitute@, join_of(ls.subrange(s + 1, e))) {
                        None => Err(SettingError::DecodeFailure),
                        Some(v) => Ok(v),
                    }
                } else {
                    Err(SettingError::InvalidRegion)
                },
                _ => Err(SettingError::InvalidRegion),
            }
        },
    }
}

/// Applies `setting` to `content`, writing `value` in: returns the new
/// content to be written back, or the error.
pub fn set_content(setting: &Setting, value: &str, content: &str) -> (r: Result<
    String,
    SettingError,
>)
    ensures
        match r {
            Ok(out) => set_content_spec(*setting, value@, content@) == Ok::<
                Seq<char>,
                SettingError,
            >(out@),
            Err(e) => set_content_spec(*setting, value@, content@) == Err::<
                Seq<char>,
                SettingError,
            >(e),
        },
{
    let sub = render(setting.substitute.as_str(), value);
    let mut ls = split_lines(content);
    match &setting.pattern {
        Pattern::Line(p) => {
            match CompiledRegex::compile(p.as_str()) {
                Err(_) => Err(SettingError::RegexCompileError),
                Ok(rgx) => {
                    mutate_lines(
                        &mut ls,
                        &rgx,
                        setting.replace_rule(),
                        sub.as_str(),
                        setting.is_multiple(),
                    );
                    Ok(join_lines(&ls))
                },
            }
        },
        Pattern::Region(pair) => {
            let start_rgx = match CompiledRegex::compile(pair[0].as_str()) {
                Err(_) => {
                    return Err(SettingError::RegexCompileError);
                },
                Ok(rgx) => rgx,
            };
            let end_rgx = match CompiledRegex::compile(pair[1].as_str()) {
                Err(_) => {
                    return Err(SettingError::RegexCompileError);
                },
                Ok(rgx) => rgx,
            };
            proof {
                lemma_scan_region_bounds(
                    ls.deep_view(),
                    start_rgx.pattern(),
                    end_rgx.pattern(),
                    setting.multiple_spec(),
                    None,
                    None,
                    0,
                );
            }
            match locate_region(&ls, &start_rgx, &end_rgx, setting.is_multiple()) {
                (Some(s), Some(e)) => if s < e {
                    let spliced = splice_lines(&ls, s, e, sub.as_str());
                    Ok(join_lines(&spliced))
                } else {
                    Err(SettingError::InvalidRegion)
                },
                _ => Err(SettingError::InvalidRegion),
            }
        },
    }
}

/// Applies `setting` to `content`, reading the current value out.
pub fn get_content(setting: &Setting, content: &str) -> (r: Result<String, SettingError>)
    ensures
        match r {
            Ok(v) => get_content_spec(*setting, content@) == Ok::<Seq<char>, SettingError>(v@),
            Err(e) => get_content_spec(*setting, content@) == Err::<Seq<char>, SettingError>(e),
        },
{
    let ls = split_lines(content);
    match &setting.pattern {
        Pattern::Line(p) => {
            match CompiledRegex::compile(p.as_str()) {
                Err(_) => Err(SettingError::RegexCompileError),
                Ok(rgx) => {
                    match scan_matched_text(
                        &ls,
                        &rgx,
                        setting.replace_rule(),
                        setting.is_multiple(),
                    ) {
                        None => Err(SettingError::NoMatch),
                        Some(t) => match extract(setting.substitute.as_str(), t.as_str()) {
                            None => Err(SettingError::DecodeFailure),
                            Some(v) => Ok(v),
                        },
                    }
                },
            }
        },
        Pattern::Region(pair) => {
            let start_rgx = match CompiledRegex::compile(pair[0].as_str()) {
                Err(_) => {
                    return Err(SettingError::RegexCompileError);
                },
                Ok(rgx) => rgx,
            };
            let end_rgx = match CompiledRegex::compile(pair[1].as_str()) {
                Err(_) => {
                    return Err(SettingError::RegexCompileError);
                },
                Ok(rgx) => rgx,
            };
            proof {
                lemma_scan_region_bounds(
                    ls.deep_view(),
                    start_rgx.pattern(),
                    end_rgx.pattern(),
                    setting.multiple_spec(),
                    None,
                    None,
                    0,
                );
            }
            match locate_region(&ls, &start_rgx, &end_rgx, setting.is_multiple()) {
                (Some(s), Some(e)) => if s < e {
                    let mut interior: Vec<String> = Vec::new();
                    proof {
                        assert(interior.deep_view() =~= Seq::<Seq<char>>::empty());
                        assert(ls.deep_view().subrange(s + 1, s + 1) =~= Seq::<Seq<char>>::empty());
                    }
                    let mut k: usize = s + 1;
                    while k < e
                        invariant
                            s < e < ls@.len(),
                            s + 1 <= k <= e,
                            interior.deep_view() =~= ls.deep_view().subrange(s + 1, k as int),
                        decreases e - k,
                    {
                        let ghost prev = interior.deep_view();
                        interior.push(ls[k].clone());
                        proof {
                            assert(interior.deep_view() =~= prev.push(ls.deep_view()[k as int]));
                            assert(prev.push(ls.deep_view()[k as int]) =~= ls.deep_view().subrange(
                                s + 1,
                                k + 1,
                            ));
                        }
                        k += 1;
                    }
                    let text = join_lines(&interior);
                    match extract(setting.substitute.as_str(), text.as_str()) {
                        None => Err(SettingError::DecodeFailure),
                        Some(v) => Ok(v),
                    }
                } else {
                    Err(SettingError::InvalidRegion)
                },
                _ => Err(SettingError::InvalidRegion),
            }
        },
    }
}

/// The index of the first setting of the given name, if any.
pub open spec fn find_setting_spec(registry: Seq<Setting>, name: Seq<char>) -> Option<int>
    decreases registry.len(),
{
    if registry.len() == 0 {
        None
    } else if registry[0].name@ == name {
        Some(0int)
    } else {
        match find_setting_spec(registry.drop_first(), name) {
            None => None,
            Some(i) => Some(i + 1),
        }
    }
}

/// Resolves a setting by name: the first setting in the registry whose name
/// matches, or `None` when there is none.
pub fn get_setting<'a>(setting_name: String, registry: &'a Vec<Setting>) -> (r: Option<
    &'a Setting,
>)
    ensures
        match r {
            Some(s) => {
                &&& find_setting_spec(registry@, setting_name@) is Some
                &&& *s == registry@[find_setting_spec(registry@, setting_name@)->0]
                &&& s.name@ == setting_name@
            },
            None => find_setting_spec(registry@, setting_name@) is None,
        },
{
    let mut i: usize = 0;
    proof {
        assert(registry@.skip(0) =~= registry@);
    }
    while i < registry.len()
        invariant
            0 <= i <= registry@.len(),
            forall|k: int| 0 <= k < i ==> (#[trigger] registry@[k]).name@ != setting_name@,
            find_setting_spec(registry@, setting_name@) == match find_setting_spec(
                registry@.skip(i as int),
                setting_name@,
            ) {
                None => None::<int>,
                Some(j) => Some(j + i),
            },
        decreases registry@.len() - i,
    {
        proof {
            assert(registry@.skip(i as int)[0] == registry@[i as int]);
        }
        if str_eq(registry[i].name.as_str(), setting_name.as_str()) {
            return Some(&registry[i]);
        }
        proof {
            assert(registry@.skip(i as int).drop_first() =~= registry@.skip(i + 1));
        }
        i += 1;
    }
    proof {
        assert(registry@.skip(i as int).len() == 0);
    }
    None
}

} // verus!
