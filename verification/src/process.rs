//! Finding processes by executable name in a process snapshot: the name
//! matcher (white space trimmed, ASCII case ignored, any number of
//! trailing `.exe` ignored), the decoding of a snapshot entry's
//! NUL-terminated UTF-16 name, and the collector that walks the snapshot.
use vstd::prelude::*;
use vstd::string::*;
use crate::error::AppError;
use crate::text::{
    all_white_space, lemma_ascii_normal_form_idempotent, lemma_variant_normal_form, unpadded,
    ascii_lower_spec, decimal_spec, decode_utf16, exe_suffix, format_decimal, is_white_space,
    lemma_ascii_lower_append_exe, lemma_strip_exe_all_append, lemma_trim_append_exe,
    lemma_case_variants_lower_alike, lemma_trim_end_ascii_lower, lemma_trim_start_ascii_lower,
    same_up_to_ascii_case, strip_exe_all, strip_exe_suffix_all,
    to_ascii_lowercase, trim, trim_spec, trim_start_spec, utf16_decode,
};

verus! {

/// A process name as the matcher compares it: trimmed and ASCII
/// lower-cased.
pub open spec fn normalize_spec(name: Seq<char>) -> Seq<char> {
    ascii_lower_spec(trim_spec(name))
}

/// Whether the process name `actual` is the target `target`: equal once
/// both are normalized, or equal once every trailing `.exe` is removed
/// from both.
pub open spec fn name_matches(target: Seq<char>, actual: Seq<char>) -> bool {
    normalize_spec(actual) == normalize_spec(target) || strip_exe_all(normalize_spec(actual))
        == strip_exe_all(normalize_spec(target))
}

/// A process name trimmed and ASCII lower-cased.
pub fn normalize_process_name(name: &str) -> (r: String)
    ensures
        r@ == normalize_spec(name@),
{
    to_ascii_lowercase(trim(name))
}

/// A process name without any trailing `.exe`.
pub fn process_name_without_exe(name: &str) -> (r: &str)
    ensures
        r@ == strip_exe_all(name@),
{
    strip_exe_suffix_all(name)
}

/// Compares process names against one target name.
pub struct ProcessNameMatcher {
    normalized_target: String,
    target_without_extension: String,
}

impl ProcessNameMatcher {
    /// The normalized target.
    pub closed spec fn target_view(&self) -> Seq<char> {
        self.normalized_target@
    }

    /// The normalized target without trailing `.exe`.
    pub closed spec fn stem_view(&self) -> Seq<char> {
        self.target_without_extension@
    }

    /// Whether this matcher was made for the name `target`.
    pub open spec fn made_for(&self, target: Seq<char>) -> bool {
        &&& self.target_view() == normalize_spec(target)
        &&& self.stem_view() == strip_exe_all(normalize_spec(target))
    }

    /// A matcher for the process name `target`.
    pub fn new(target: &str) -> (m: Self)
        ensures
            m.made_for(target@),
    {
        let normalized_target = normalize_process_name(target);
        let target_without_extension = String::from_str(
            process_name_without_exe(normalized_target.as_str()),
        );
        Self { normalized_target, target_without_extension }
    }

    /// Whether `actual` names the target process.
    pub fn matches(&self, actual: &str) -> (r: bool)
        ensures
            r == (normalize_spec(actual@) == self.target_view() || strip_exe_all(
                normalize_spec(actual@),
            ) == self.stem_view()),
            forall|target: Seq<char>| self.made_for(target) ==> r == name_matches(target, actual@),
    {
        let normalized_actual = normalize_process_name(actual);
        if normalized_actual == self.normalized_target {
            return true;
        }
        let stem = String::from_str(process_name_without_exe(normalized_actual.as_str()));
        stem == self.target_without_extension
    }
}

// ---------------------------------------------------------------------
// Laws of the matcher
// ---------------------------------------------------------------------

/// Every name matches itself.
pub proof fn lemma_name_matches_itself(name: Seq<char>)
    ensures
        name_matches(name, name),
{
}




/// Normalizing is trimming the ASCII lower-cased name.
proof fn lemma_normalize_is_trimmed_lower(s: Seq<char>)
    ensures
        normalize_spec(s) == trim_spec(ascii_lower_spec(s)),
{
    lemma_trim_start_ascii_lower(s);
    lemma_trim_end_ascii_lower(trim_start_spec(s));
}

/// Matching ignores ASCII case, in the actual name and in the target:
/// names that agree once ASCII lower-cased match the same names.
pub proof fn lemma_name_matches_ignores_ascii_case(
    target1: Seq<char>,
    target2: Seq<char>,
    actual1: Seq<char>,
    actual2: Seq<char>,
)
    requires
        ascii_lower_spec(target1) == ascii_lower_spec(target2),
        ascii_lower_spec(actual1) == ascii_lower_spec(actual2),
    ensures
        name_matches(target1, actual1) == name_matches(target2, actual2),
{
    lemma_normalize_is_trimmed_lower(target1);
    lemma_normalize_is_trimmed_lower(target2);
    lemma_normalize_is_trimmed_lower(actual1);
    lemma_normalize_is_trimmed_lower(actual2);
}




/// The `.exe` extension is optional: a name and the same name with
/// `.exe` appended match the same targets, whenever the name does not
/// end in white space (which would separate it from the extension).
pub proof fn lemma_name_matches_extension_optional(target: Seq<char>, actual: Seq<char>)
    requires
        actual.len() == 0 || !is_white_space(actual.last()),
    ensures
        name_matches(target, actual + exe_suffix()) == name_matches(target, actual),
{
    let e = exe_suffix();
    lemma_trim_append_exe(actual);
    lemma_ascii_lower_append_exe(trim_spec(actual));
    assert(normalize_spec(actual + e) == normalize_spec(actual) + e);
    lemma_strip_exe_all_append(normalize_spec(actual));
    let n = normalize_spec(actual);
    let nt = normalize_spec(target);
    if n + e == nt {
        lemma_strip_exe_all_append(n);
    }
}


/// A name matches a target exactly when the two agree once trimmed,
/// ASCII lower-cased and stripped of every trailing `.exe`.
pub proof fn lemma_name_matches_is_stem_equality(target: Seq<char>, actual: Seq<char>)
    ensures
        name_matches(target, actual) == (strip_exe_all(normalize_spec(actual)) == strip_exe_all(
            normalize_spec(target),
        )),
{
}

/// Normalizing a normalized name changes nothing.
pub proof fn lemma_normalize_idempotent(name: Seq<char>)
    ensures
        normalize_spec(normalize_spec(name)) == normalize_spec(name),
{
    lemma_ascii_normal_form_idempotent(name);
}

/// Matching ignores letter case, surrounding white space and the `.exe`
/// extension: a name without surrounding white space, written with other
/// ASCII letter case, with `.exe` (in any letter case) or nothing
/// appended, and with white space around, matches exactly the targets
/// that the name matches; as a target it is matched by the same names.
pub proof fn lemma_matching_ignores_case_space_and_extension(
    target: Seq<char>,
    name: Seq<char>,
    lead: Seq<char>,
    variant: Seq<char>,
    ext: Seq<char>,
    trail: Seq<char>,
)
    requires
        unpadded(name),
        ascii_lower_spec(variant) == ascii_lower_spec(name),
        ext.len() == 0 || ascii_lower_spec(ext) == exe_suffix(),
        all_white_space(lead),
        all_white_space(trail),
    ensures
        name_matches(target, lead + variant + ext + trail) == name_matches(target, name),
        name_matches(lead + variant + ext + trail, target) == name_matches(name, target),
{
    let written = lead + variant + ext + trail;
    lemma_variant_normal_form(name, lead, variant, ext, trail);
    let n = ascii_lower_spec(name);
    if ext.len() > 0 {
        lemma_strip_exe_all_append(n);
    } else {
        assert(n + Seq::<char>::empty() =~= n);
    }
    assert(strip_exe_all(normalize_spec(written)) == strip_exe_all(normalize_spec(name)));
    lemma_name_matches_is_stem_equality(target, written);
    lemma_name_matches_is_stem_equality(target, name);
    lemma_name_matches_is_stem_equality(written, target);
    lemma_name_matches_is_stem_equality(name, target);
}

// ---------------------------------------------------------------------
// Snapshot entries
// ---------------------------------------------------------------------

/// The index of the first NUL unit, if there is one.
pub open spec fn first_nul(units: Seq<u16>) -> Option<int>
    decreases units.len(),
{
    if units.len() == 0 {
        None
    } else if units[0] == 0 {
        Some(0)
    } else {
        match first_nul(units.drop_first()) {
            Some(k) => Some(k + 1),
            None => None,
        }
    }
}

/// The name held in a snapshot entry's NUL-terminated UTF-16 buffer,
/// or the summary and detail of the error reported for it: a buffer
/// without a terminator, an empty name, or a name that is no valid
/// UTF-16.
pub open spec fn entry_name_spec(units: Seq<u16>, pid: u32) -> Result<
    Seq<char>,
    (Seq<char>, Seq<char>),
> {
    match first_nul(units) {
        None => {
            let m = "进程名缺少字符串终止符: "@ + decimal_spec(pid as nat);
            Err((m, m))
        },
        Some(k) => if k == 0 {
            let m = "进程名为空: "@ + decimal_spec(pid as nat);
            Err((m, m))
        } else {
            match utf16_decode(units.take(k)) {
                Some(name) => Ok(name),
                None => {
                    let m = "进程名不是有效 UTF-16: "@ + decimal_spec(pid as nat);
                    Err((m, m + ": "@ + "invalid utf-16: lone surrogate found"@))
                },
            }
        },
    }
}

fn find_nul(units: &[u16]) -> (r: Option<usize>)
    ensures
        match r {
            Some(k) => first_nul(units@) == Some(k as int) && k < units@.len(),
            None => first_nul(units@) is None,
        },
{
    let n = units.len();
    let mut i: usize = 0;
    assert(units@.skip(0) =~= units@);
    while i < n
        invariant
            n == units@.len(),
            0 <= i <= n,
            forall|j: int| 0 <= j < i ==> units@[j] != 0,
            first_nul(units@) == match first_nul(units@.skip(i as int)) {
                Some(k) => Some(k + i),
                None => None,
            },
        decreases n - i,
    {
        if units[i] == 0 {
            return Some(i);
        }
        assert(units@.skip(i as int).drop_first() =~= units@.skip(i + 1));
        i = i + 1;
    }
    assert(units@.skip(n as int).len() == 0);
    None
}

fn message_with_pid(prefix: &str, pid: u32) -> (s: String)
    ensures
        s@ == prefix@ + decimal_spec(pid as nat),
{
    let mut s = String::from_str(prefix);
    let digits = format_decimal(pid as u64);
    s.append(digits.as_str());
    s
}

/// Reads the name in a snapshot entry's NUL-terminated UTF-16 buffer.
pub fn process_entry_name(exe_file: &[u16], pid: u32) -> (r: Result<String, AppError>)
    ensures
        match r {
            Ok(name) => entry_name_spec(exe_file@, pid) == Ok::<Seq<char>, (Seq<char>, Seq<char>)>(
                name@,
            ),
            Err(e) => entry_name_spec(exe_file@, pid) == Err::<Seq<char>, (Seq<char>, Seq<char>)>(
                (e.summary@, e.detail@),
            ),
        },
{
    let name_len = match find_nul(exe_file) {
        Some(k) => k,
        None => {
            return Err(AppError::from_text(message_with_pid("进程名缺少字符串终止符: ", pid)));
        },
    };
    if name_len == 0 {
        return Err(AppError::from_text(message_with_pid("进程名为空: ", pid)));
    }
    let name_units = &exe_file[0..name_len];
    assert(name_units@ =~= exe_file@.take(name_len as int));
    match decode_utf16(name_units) {
        Some(name) => Ok(name),
        None => {
            let outer = AppError::from_text(message_with_pid("进程名不是有效 UTF-16: ", pid));
            Err(outer.context_text(AppError::msg("invalid utf-16: lone surrogate found")))
        },
    }
}

// ---------------------------------------------------------------------
// Walking a snapshot
// ---------------------------------------------------------------------

/// What moving to a snapshot entry gave: an entry to read, the end of
/// the snapshot, or another failure.
pub enum SnapshotStep {
    Entry,
    NoMoreEntries,
    Failed(AppError),
}

/// What to do after moving: read the entry, stop with the ids found, or
/// stop with the error.
pub enum ScanControl {
    ReadEntry,
    Finished,
    Failed(AppError),
}

/// The decision after a move, where `what` names the move in an error.
pub open spec fn scan_control_spec(step: SnapshotStep, what: Seq<char>, c: ScanControl) -> bool {
    match step {
        SnapshotStep::Entry => c is ReadEntry,
        SnapshotStep::NoMoreEntries => c is Finished,
        SnapshotStep::Failed(e) => match c {
            ScanControl::Failed(f) => f.summary@ == what && f.detail@ == what + ": "@ + e.detail@,
            _ => false,
        },
    }
}

fn control_after(step: SnapshotStep, what: &str) -> (c: ScanControl)
    ensures
        scan_control_spec(step, what@, c),
{
    match step {
        SnapshotStep::Entry => ScanControl::ReadEntry,
        SnapshotStep::NoMoreEntries => ScanControl::Finished,
        SnapshotStep::Failed(e) => ScanControl::Failed(e.context(what)),
    }
}

/// The decision after moving to the first entry of a snapshot.
pub fn after_first_entry(step: SnapshotStep) -> (c: ScanControl)
    ensures
        scan_control_spec(step, "读取首个进程快照项失败"@, c),
{
    control_after(step, "读取首个进程快照项失败")
}

/// The decision after moving to the next entry of a snapshot.
pub fn after_next_entry(step: SnapshotStep) -> (c: ScanControl)
    ensures
        scan_control_spec(step, "读取下一个进程快照项失败"@, c),
{
    control_after(step, "读取下一个进程快照项失败")
}

/// Collects the ids of the snapshot's processes whose name matches a
/// target, entry by entry.
pub struct ProcessIdCollector {
    matcher: ProcessNameMatcher,
    process_ids: Vec<u32>,
}

impl ProcessIdCollector {
    /// The ids collected so far, in the order the entries came.
    pub closed spec fn ids(&self) -> Seq<u32> {
        self.process_ids@
    }

    /// Whether this collector looks for the name `target`.
    pub closed spec fn made_for(&self, target: Seq<char>) -> bool {
        self.matcher.made_for(target)
    }

    /// A collector, with no id yet, for the process name `process_name`.
    pub fn new(process_name: &str) -> (c: Self)
        ensures
            c.made_for(process_name@),
            c.ids() == Seq::<u32>::empty(),
    {
        ProcessIdCollector { matcher: ProcessNameMatcher::new(process_name), process_ids: Vec::new() }
    }

    /// Reads one entry: its id is kept when its name reads and matches;
    /// a name that cannot be read is returned as an error to report,
    /// and the walk goes on.
    pub fn observe(&mut self, exe_file: &[u16], pid: u32) -> (r: Option<AppError>)
        ensures
            forall|t: Seq<char>| old(self).made_for(t) ==> final(self).made_for(t),
            forall|t: Seq<char>|
                old(self).made_for(t) ==> match entry_name_spec(exe_file@, pid) {
                    Ok(name) => {
                        &&& r is None
                        &&& final(self).ids() == if name_matches(t, name) {
                            old(self).ids().push(pid)
                        } else {
                            old(self).ids()
                        }
                    },
                    Err((summary, detail)) => {
                        &&& final(self).ids() == old(self).ids()
                        &&& r matches Some(e) && e.summary@ == summary && e.detail@ == detail
                    },
                },
    {
        match process_entry_name(exe_file, pid) {
            Ok(name) => {
                if self.matcher.matches(name.as_str()) {
                    self.process_ids.push(pid);
                }
                None
            },
            Err(e) => Some(e),
        }
    }

    /// The ids collected.
    pub fn into_process_ids(self) -> (ids: Vec<u32>)
        ensures
            ids@ == self.ids(),
    {
        self.process_ids
    }
}


/// A process whose name differs from the target only in the case of
/// ASCII letters is a match.
pub proof fn lemma_case_variants_match(target: Seq<char>, actual: Seq<char>)
    requires
        same_up_to_ascii_case(target, actual),
    ensures
        name_matches(target, actual),
{
    lemma_case_variants_lower_alike(target, actual);
    lemma_name_matches_ignores_ascii_case(target, target, actual, target);
}

/// `first_nul` finds the first zero code unit: the unit at the position
/// it gives is zero and none before it is; where it finds none, there is
/// no zero at all.
pub proof fn lemma_first_nul_is_first_zero(units: Seq<u16>)
    ensures
        first_nul(units) matches Some(k) ==> 0 <= k < units.len() && units[k] == 0 && forall|j: int|
            0 <= j < k ==> units[j] != 0,
        first_nul(units) is None ==> forall|j: int| 0 <= j < units.len() ==> units[j] != 0,
    decreases units.len(),
{
    if units.len() > 0 && units[0] != 0 {
        let rest = units.drop_first();
        lemma_first_nul_is_first_zero(rest);
        assert forall|j: int| 1 <= j < units.len() implies units[j] == rest[j - 1] by {}
    }
}

} // verus!
