//! Resolution of one replacement run against a path.
//!
//! A rename target selects which part of the path's file name the replacement
//! engine works on: the whole name, the stem, or the extension.  The resolver
//! returns, for one entry, the original path, a highlighted display name, the
//! candidate target path, and a highlighted display name of the target.  An
//! entry whose targeted field is absent, and an entry whose source no longer
//! exists, is returned unchanged.

use vstd::prelude::*;
use vstd::string::StringExecFns;
use crate::engine::{replace_count_spec, replace_with_count};
use crate::paths::{
    extension_chars, extension_spec, file_name_chars, file_name_spec, stem_chars, stem_spec,
    with_extension_chars, with_extension_spec, with_file_name_chars, with_file_name_spec,
    with_stem_chars, with_stem_spec,
};
use crate::serial::{replacement_handler, serial_expand_spec};
use crate::text::{chars_to_string, replace_all, replace_all_spec, str_eq, str_to_chars};

verus! {

broadcast use vstd::string::group_string_axioms;

/// Which part of a path one replacement run works on: the whole file name,
/// the stem, or the extension.
#[derive(Clone, Copy, PartialEq, Eq, Structural, Debug)]
pub enum RenameTarget {
    NAME,
    STEM,
    SUFFIX,
}

impl RenameTarget {
    /// Parses a rename-target selector; any other text is rejected with a
    /// message naming the value.
    pub fn from_str(s: &str) -> (res: Result<RenameTarget, String>)
        ensures
            s@ == "NAME"@ ==> res == Ok::<RenameTarget, String>(RenameTarget::NAME),
            s@ == "STEM"@ ==> res == Ok::<RenameTarget, String>(RenameTarget::STEM),
            s@ == "SUFFIX"@ ==> res == Ok::<RenameTarget, String>(RenameTarget::SUFFIX),
            !(s@ == "NAME"@ || s@ == "STEM"@ || s@ == "SUFFIX"@) ==> (res matches Err(e) && e@
                == "Invalid RenameTarget value: "@ + s@),
    {
        proof {
            reveal_strlit("NAME");
            reveal_strlit("STEM");
            reveal_strlit("SUFFIX");
            assert("NAME"@ != "STEM"@) by {
                assert("NAME"@[0] == 'N');
                assert("STEM"@[0] == 'S');
            }
            assert("NAME"@ != "SUFFIX"@ && "STEM"@ != "SUFFIX"@) by {
                assert("NAME"@.len() == 4 && "STEM"@.len() == 4 && "SUFFIX"@.len() == 6);
            }
        }
        if str_eq(s, "NAME") {
            Ok(RenameTarget::NAME)
        } else if str_eq(s, "STEM") {
            Ok(RenameTarget::STEM)
        } else if str_eq(s, "SUFFIX") {
            Ok(RenameTarget::SUFFIX)
        } else {
            let mut msg = "Invalid RenameTarget value: ".to_owned();
            msg.append(s);
            Err(msg)
        }
    }
}

/// The field of `path` a target selects, absent when the path has no file
/// name (or, for the extension, none).
pub open spec fn target_field(path: Seq<char>, target: RenameTarget) -> Option<Seq<char>> {
    match target {
        RenameTarget::NAME => if file_name_spec(path).len() > 0 {
            Some(file_name_spec(path))
        } else {
            None
        },
        RenameTarget::STEM => if file_name_spec(path).len() > 0 {
            Some(stem_spec(path))
        } else {
            None
        },
        RenameTarget::SUFFIX => extension_spec(path),
    }
}

/// The display form of a highlighted name: the engine's two-bracket escape
/// is closed into proper end tags.
pub open spec fn display_spec(s: Seq<char>) -> Seq<char> {
    replace_all_spec(s, "<<"@, "</"@)
}

/// The four outputs of resolving one entry: the original path, its
/// highlighted display name, the candidate target path, and the target's
/// highlighted display name.  An absent field or a vanished source leaves
/// the entry unchanged.
pub open spec fn foresight_spec(
    path: Seq<char>,
    pattern: Seq<char>,
    replacement: Seq<char>,
    use_regex: bool,
    target: RenameTarget,
    count: int,
    src_exists: bool,
) -> (Seq<char>, Seq<char>, Seq<char>, Seq<char>) {
    let dflt = (path, file_name_spec(path), path, file_name_spec(path));
    if !src_exists {
        dflt
    } else {
        match target_field(path, target) {
            None => dflt,
            Some(field) => {
                let triple = replace_count_spec(use_regex, field, pattern, replacement, count);
                match target {
                    RenameTarget::NAME => (
                        path,
                        display_spec(triple.0),
                        with_file_name_spec(path, triple.1),
                        display_spec(triple.2),
                    ),
                    RenameTarget::STEM => (
                        path,
                        display_spec(file_name_spec(with_stem_spec(path, triple.0))),
                        with_stem_spec(path, triple.1),
                        display_spec(file_name_spec(with_stem_spec(path, triple.2))),
                    ),
                    RenameTarget::SUFFIX => (
                        path,
                        display_spec(file_name_spec(with_extension_spec(path, triple.0))),
                        with_extension_spec(path, triple.1),
                        display_spec(file_name_spec(with_extension_spec(path, triple.2))),
                    ),
                }
            },
        }
    }
}

/// Closes the engine's two-bracket escape into proper end tags.
fn display_exec(v: &[char]) -> (out: Vec<char>)
    ensures
        out@ == display_spec(v@),
{
    let open_esc = str_to_chars("<<");
    let close = str_to_chars("</");
    replace_all(v, open_esc.as_slice(), close.as_slice())
}

/// Resolves one replacement run against `path`, on the field `target`
/// selects, with `src_exists` telling whether the source path still exists.
/// Returns the original path, its highlighted display name, the candidate
/// target path, and the target's highlighted display name; entries whose
/// field is absent, or whose source is gone, come back unchanged.
pub fn foresight(
    path: &str,
    pattern: &str,
    replacement: &str,
    use_regex: bool,
    target: RenameTarget,
    count: i8,
    src_exists: bool,
) -> (res: Result<(String, String, String, String), String>)
    requires
        path@.len() + 2 <= usize::MAX,
    ensures
        res matches Ok(out) && {
            let f = foresight_spec(
                path@,
                pattern@,
                replacement@,
                use_regex,
                target,
                count as int,
                src_exists,
            );
            out.0@ == f.0 && out.1@ == f.1 && out.2@ == f.2 && out.3@ == f.3
        },
{
    let pv = str_to_chars(path);
    proof {
        crate::paths::lemma_field_lengths(path@);
    }
    let fname = file_name_chars(pv.as_slice());
    if !src_exists {
        let n = chars_to_string(fname.as_slice());
        let n2 = chars_to_string(fname.as_slice());
        return Ok((path.to_owned(), n, path.to_owned(), n2));
    }
    match target {
        RenameTarget::NAME => {
            if fname.len() == 0 {
                let n = chars_to_string(fname.as_slice());
                let n2 = chars_to_string(fname.as_slice());
                return Ok((path.to_owned(), n, path.to_owned(), n2));
            }
            let field = chars_to_string(fname.as_slice());
            match replace_with_count(use_regex, field.as_str(), pattern, replacement, count) {
                Ok((h, r, hr)) => {
                    let hv = str_to_chars(h.as_str());
                    let rv = str_to_chars(r.as_str());
                    let hrv = str_to_chars(hr.as_str());
                    let orig_name = chars_to_string(display_exec(hv.as_slice()).as_slice());
                    let target_path = chars_to_string(
                        with_file_name_chars(pv.as_slice(), rv.as_slice()).as_slice(),
                    );
                    let target_name = chars_to_string(display_exec(hrv.as_slice()).as_slice());
                    Ok((path.to_owned(), orig_name, target_path, target_name))
                },
                Err(e) => Err(e),
            }
        },
        RenameTarget::STEM => {
            if fname.len() == 0 {
                let n = chars_to_string(fname.as_slice());
                let n2 = chars_to_string(fname.as_slice());
                return Ok((path.to_owned(), n, path.to_owned(), n2));
            }
            let stem = stem_chars(pv.as_slice());
            let field = chars_to_string(stem.as_slice());
            match replace_with_count(use_regex, field.as_str(), pattern, replacement, count) {
                Ok((h, r, hr)) => {
                    let hv = str_to_chars(h.as_str());
                    let rv = str_to_chars(r.as_str());
                    let hrv = str_to_chars(hr.as_str());
                    let hi_path = with_stem_chars(pv.as_slice(), hv.as_slice());
                    let orig_name = chars_to_string(
                        display_exec(file_name_chars(hi_path.as_slice()).as_slice()).as_slice(),
                    );
                    let target_path = chars_to_string(
                        with_stem_chars(pv.as_slice(), rv.as_slice()).as_slice(),
                    );
                    let hr_path = with_stem_chars(pv.as_slice(), hrv.as_slice());
                    let target_name = chars_to_string(
                        display_exec(file_name_chars(hr_path.as_slice()).as_slice()).as_slice(),
                    );
                    Ok((path.to_owned(), orig_name, target_path, target_name))
                },
                Err(e) => Err(e),
            }
        },
        RenameTarget::SUFFIX => {
            match extension_chars(pv.as_slice()) {
                None => {
                    let n = chars_to_string(fname.as_slice());
                    let n2 = chars_to_string(fname.as_slice());
                    Ok((path.to_owned(), n, path.to_owned(), n2))
                },
                Some(ext) => {
                    let field = chars_to_string(ext.as_slice());
                    match replace_with_count(
                        use_regex,
                        field.as_str(),
                        pattern,
                        replacement,
                        count,
                    ) {
                        Ok((h, r, hr)) => {
                            let hv = str_to_chars(h.as_str());
                            let rv = str_to_chars(r.as_str());
                            let hrv = str_to_chars(hr.as_str());
                            let hi_path = with_extension_chars(pv.as_slice(), hv.as_slice());
                            let orig_name = chars_to_string(
                                display_exec(
                                    file_name_chars(hi_path.as_slice()).as_slice(),
                                ).as_slice(),
                            );
                            let target_path = chars_to_string(
                                with_extension_chars(pv.as_slice(), rv.as_slice()).as_slice(),
                            );
                            let hr_path = with_extension_chars(pv.as_slice(), hrv.as_slice());
                            let target_name = chars_to_string(
                                display_exec(
                                    file_name_chars(hr_path.as_slice()).as_slice(),
                                ).as_slice(),
                            );
                            Ok((path.to_owned(), orig_name, target_path, target_name))
                        },
                        Err(e) => Err(e),
                    }
                },
            }
        },
    }
}

/// Expands the serial-number token of `replacement` against `serial_number`,
/// then resolves the replacement run against `path` as `foresight` does.
pub fn foresight_with_serial(
    path: &str,
    pattern: &str,
    replacement: &str,
    use_regex: bool,
    target: RenameTarget,
    count: i8,
    serial_number: i64,
    src_exists: bool,
) -> (res: Result<(String, String, String, String), String>)
    requires
        path@.len() + 2 <= usize::MAX,
    ensures
        res matches Ok(out) && {
            let f = foresight_spec(
                path@,
                pattern@,
                serial_expand_spec(replacement@, serial_number as int),
                use_regex,
                target,
                count as int,
                src_exists,
            );
            out.0@ == f.0 && out.1@ == f.1 && out.2@ == f.2 && out.3@ == f.3
        },
{
    match replacement_handler(replacement, serial_number) {
        Ok(expanded) => foresight(
            path,
            pattern,
            expanded.as_str(),
            use_regex,
            target,
            count,
            src_exists,
        ),
        Err(e) => Err(e),
    }
}

} // verus!
