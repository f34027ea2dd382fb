//! The plan orchestrator and the apply-phase checks.
//!
//! The planner walks the enumerated entries in order, expands the
//! serial-number token against a counter seeded at one, resolves each entry,
//! and collects the results into batches of a fixed capacity so a caller can
//! stream them; the counter advances only for entries whose resolved target
//! differs from the original, so no-op entries never consume a serial value.
//! The apply-phase check admits a rename only when the source still exists
//! and the target does not.

use vstd::prelude::*;
use crate::paths::extension_spec;
use crate::resolve::{foresight_spec, foresight_with_serial, RenameTarget};
use crate::serial::serial_expand_spec;
use crate::text::{chars_to_string, lower_of, lowercase, str_eq, str_to_chars, sub_chars};

verus! {

/// How many entries a batch holds before it is flushed to the caller.
pub const VEC_LENGTH_LIMIT: u8 = 100;

/// One planned entry: the original path and display name, and the candidate
/// target path and display name.  The display names carry highlight markup;
/// the paths are plain.
pub struct PlanEntry {
    pub original_path: String,
    pub original_name: String,
    pub target_path: String,
    pub target_name: String,
}

/// The mathematical content of a planned entry.
pub struct PlanEntryView {
    pub original_path: Seq<char>,
    pub original_name: Seq<char>,
    pub target_path: Seq<char>,
    pub target_name: Seq<char>,
}

impl View for PlanEntry {
    type V = PlanEntryView;

    open spec fn view(&self) -> PlanEntryView {
        PlanEntryView {
            original_path: self.original_path@,
            original_name: self.original_name@,
            target_path: self.target_path@,
            target_name: self.target_name@,
        }
    }
}

/// The views of a sequence of planned entries.
pub open spec fn batch_view(b: Seq<PlanEntry>) -> Seq<PlanEntryView> {
    b.map_values(|e: PlanEntry| e@)
}

/// The entry one plan step produces, as a function of the serial counter and
/// the entry's inputs.
pub open spec fn planned_entry(
    serial: int,
    path: Seq<char>,
    pattern: Seq<char>,
    replacement: Seq<char>,
    use_regex: bool,
    target: RenameTarget,
    count: int,
    src_exists: bool,
) -> PlanEntryView {
    let f = foresight_spec(
        path,
        pattern,
        serial_expand_spec(replacement, serial),
        use_regex,
        target,
        count,
        src_exists,
    );
    PlanEntryView { original_path: f.0, original_name: f.1, target_path: f.2, target_name: f.3 }
}

/// Whether a planned entry is a genuine rename: its target path differs from
/// its original path.  Only such entries consume a serial value.
pub open spec fn entry_renames(e: PlanEntryView) -> bool {
    e.target_path != e.original_path
}

/// The incremental plan builder: a serial counter seeded at one and the
/// batch collected since the last flush.
pub struct Planner {
    pub serial: i64,
    pub batch: Vec<PlanEntry>,
}

impl Planner {
    /// The planner's invariant: the counter starts at one and only grows,
    /// and a batch never reaches the flush capacity between calls.
    pub open spec fn wf(&self) -> bool {
        1 <= self.serial && self.batch@.len() < VEC_LENGTH_LIMIT as int
    }

    /// A fresh planner: counter at one, nothing collected.
    pub fn new() -> (p: Planner)
        ensures
            p.wf(),
            p.serial == 1,
            p.batch@.len() == 0,
    {
        Planner { serial: 1, batch: Vec::new() }
    }

    /// Plans one entry: expands the serial token against the current
    /// counter, resolves the entry, advances the counter only when the
    /// resolved target differs from the original, and collects the entry.
    /// When the batch reaches its capacity it is handed back for emission.
    pub fn plan_entry(
        &mut self,
        path: &str,
        pattern: &str,
        replacement: &str,
        use_regex: bool,
        target: RenameTarget,
        count: i8,
        src_exists: bool,
    ) -> (flushed: Option<Vec<PlanEntry>>)
        requires
            old(self).wf(),
            old(self).serial < i64::MAX,
            path@.len() + 2 <= usize::MAX,
        ensures
            final(self).wf(),
            ({
                let e = planned_entry(
                    old(self).serial as int,
                    path@,
                    pattern@,
                    replacement@,
                    use_regex,
                    target,
                    count as int,
                    src_exists,
                );
                &&& final(self).serial == if entry_renames(e) {
                    old(self).serial + 1
                } else {
                    old(self).serial as int
                }
                &&& match flushed {
                    Some(full) => batch_view(full@) == batch_view(old(self).batch@).push(e)
                        && full@.len() == VEC_LENGTH_LIMIT as int && final(self).batch@.len() == 0,
                    None => batch_view(final(self).batch@) == batch_view(old(self).batch@).push(e)
                        && old(self).batch@.len() + 1 < VEC_LENGTH_LIMIT as int,
                }
            }),
    {
        let ghost e = planned_entry(
            self.serial as int,
            path@,
            pattern@,
            replacement@,
            use_regex,
            target,
            count as int,
            src_exists,
        );
        let resolved = foresight_with_serial(
            path,
            pattern,
            replacement,
            use_regex,
            target,
            count,
            self.serial,
            src_exists,
        );
        match resolved {
            Ok((original_path, original_name, target_path, target_name)) => {
                if !str_eq(original_path.as_str(), target_path.as_str()) {
                    self.serial = self.serial + 1;
                }
                let entry = PlanEntry { original_path, original_name, target_path, target_name };
                proof {
                    assert(entry@ == e);
                }
                self.batch.push(entry);
                proof {
                    assert(batch_view(self.batch@) =~= batch_view(old(self).batch@).push(e));
                }
                if self.batch.len() >= VEC_LENGTH_LIMIT as usize {
                    let mut full: Vec<PlanEntry> = Vec::new();
                    core::mem::swap(&mut full, &mut self.batch);
                    Some(full)
                } else {
                    None
                }
            },
            Err(_) => {
                proof {
                    assert(false);
                }
                None
            },
        }
    }

    /// Hands back whatever the last flush left over; the counter stays as it
    /// is, so planning can only end here.
    pub fn finish(&mut self) -> (rest: Vec<PlanEntry>)
        ensures
            old(self).wf() ==> final(self).wf(),
            final(self).serial == old(self).serial,
            batch_view(rest@) == batch_view(old(self).batch@),
            final(self).batch@.len() == 0,
    {
        let mut rest: Vec<PlanEntry> = Vec::new();
        core::mem::swap(&mut rest, &mut self.batch);
        rest
    }
}

/// Whether a traversal entry passes the filter: `*` admits everything, `?`
/// only files, `/` only directories, and any other token admits entries
/// whose extension equals it case-insensitively — both sides taken through
/// Unicode lower-casing — after a leading dot of the token is stripped.
pub open spec fn filter_spec(
    filter: Seq<char>,
    is_file: bool,
    is_dir: bool,
    path: Seq<char>,
) -> bool {
    if filter == seq!['*'] {
        true
    } else if filter == seq!['?'] {
        is_file
    } else if filter == seq!['/'] {
        is_dir
    } else {
        let ext = if filter.len() > 0 && filter[0] == '.' {
            filter.skip(1)
        } else {
            filter
        };
        match extension_spec(path) {
            Some(fe) => lower_of(fe) == lower_of(ext),
            None => false,
        }
    }
}

/// Whether a traversal entry passes the filter.
pub fn filter_matches(filter: &str, is_file: bool, is_dir: bool, path: &str) -> (r: bool)
    ensures
        r == filter_spec(filter@, is_file, is_dir, path@),
{
    let fv = str_to_chars(filter);
    if fv.len() == 1 && fv[0] == '*' {
        proof {
            assert(filter@ =~= seq!['*']);
        }
        return true;
    }
    proof {
        assert(filter@ != seq!['*']);
    }
    if fv.len() == 1 && fv[0] == '?' {
        proof {
            assert(filter@ =~= seq!['?']);
        }
        return is_file;
    }
    proof {
        assert(filter@ != seq!['?']);
    }
    if fv.len() == 1 && fv[0] == '/' {
        proof {
            assert(filter@ =~= seq!['/']);
        }
        return is_dir;
    }
    proof {
        assert(filter@ != seq!['/']);
    }
    let ext: Vec<char> = if fv.len() > 0 && fv[0] == '.' {
        sub_chars(fv.as_slice(), 1, fv.len())
    } else {
        sub_chars(fv.as_slice(), 0, fv.len())
    };
    proof {
        if filter@.len() > 0 && filter@[0] == '.' {
            assert(ext@ =~= filter@.skip(1));
        } else {
            assert(ext@ =~= filter@);
        }
    }
    let pv = str_to_chars(path);
    match crate::paths::extension_chars(pv.as_slice()) {
        Some(fe) => {
            let fe_s = chars_to_string(fe.as_slice());
            let ext_s = chars_to_string(ext.as_slice());
            let a = lowercase(fe_s.as_str());
            let b = lowercase(ext_s.as_str());
            str_eq(a.as_str(), b.as_str())
        },
        None => false,
    }
}

/// Checks a rename before it is applied: the source must still exist and
/// the target must not exist yet; each failure carries its reason.
pub fn rename_precheck(source_exists: bool, target_exists: bool) -> (r: Result<(), String>)
    ensures
        !source_exists ==> (r matches Err(e) && e@ == "Original path does not exist."@),
        source_exists && target_exists ==> (r matches Err(e) && e@
            == "Target path already exists."@),
        source_exists && !target_exists ==> r is Ok,
{
    if !source_exists {
        Err("Original path does not exist.".to_owned())
    } else if target_exists {
        Err("Target path already exists.".to_owned())
    } else {
        Ok(())
    }
}

} // verus!
