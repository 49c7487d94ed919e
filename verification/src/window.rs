//! Window search by process name (the process list comes from the
//! caller), window handle parsing with surrounding white space allowed,
//! and the decoding of a window's class name.
use vstd::prelude::*;
use vstd::string::*;
use std::collections::HashSet;
use crate::error::{out_of_range_message, AppError};
use crate::tool_types::WindowEntry;
use crate::window_query::{lemma_stable_sort_unique, selected_windows, stable_sort_by_hwnd};
use crate::hwnd::{hwnd_error_reported, hwnd_value, parse_hwnd_text, HwndError};
use crate::text::{
    all_white_space, ascii_lower_spec, decode_utf16, ends_with_exe, exe_suffix, is_ascii_text,
    lemma_ascii_lower_keeps_ascii, lemma_ascii_normal_form_idempotent,
    lemma_strip_exe_once_append, lemma_trim_keeps_ascii, lemma_variant_normal_form,
    strip_exe_once, strip_exe_suffix_once, to_lowercase, trim, trim_spec, unicode_lowercase,
    unpadded, utf16_decode,
};

pub use crate::hwnd::format_hwnd;

verus! {

/// Reads a window handle after trimming surrounding white space: `0x`/`0X`
/// and hexadecimal digits, or decimal digits; zero is refused. A failure
/// quotes the text as given.
pub fn parse_hwnd(raw: &str) -> (r: Result<usize, AppError>)
    ensures
        match r {
            Ok(v) => hwnd_value(trim_spec(raw@)) == Ok::<int, HwndError>(v as int),
            Err(e) => match hwnd_value(trim_spec(raw@)) {
                Ok(_) => false,
                Err(err) => hwnd_error_reported(e, raw@, err),
            },
        },
{
    parse_hwnd_text(trim(raw), raw)
}

/// A process name as this matcher compares it: trimmed and lower-cased
/// under Unicode rules.
pub open spec fn normalize_spec(name: Seq<char>) -> Seq<char> {
    unicode_lowercase(trim_spec(name))
}

/// Whether a normalized process name `actual` is the normalized target:
/// equal, or equal once one trailing `.exe` is removed from each.
pub open spec fn normalized_names_match(target: Seq<char>, actual: Seq<char>) -> bool {
    actual == target || strip_exe_once(actual) == strip_exe_once(target)
}

/// A process name trimmed and lower-cased (`name.trim().to_lowercase()`);
/// for ASCII names this is the ASCII lower-case form.
pub fn normalize_process_name(name: &str) -> (r: String)
    ensures
        r@ == normalize_spec(name@),
        is_ascii_text(name@) ==> r@ == ascii_lower_spec(trim_spec(name@)),
{
    let trimmed = trim(name);
    proof {
        if is_ascii_text(name@) {
            lemma_trim_keeps_ascii(name@);
        }
    }
    to_lowercase(trimmed)
}

/// A name without one trailing `.exe`.
pub fn remove_exe_suffix(name: &str) -> (r: &str)
    ensures
        r@ == strip_exe_once(name@),
{
    strip_exe_suffix_once(name)
}

/// Whether a matcher with the normalized target `target` and stem `stem`
/// accepts the ASCII name `actual`, whose normalized form is its trimmed
/// ASCII lower-case form.
pub open spec fn ascii_accepts(target: Seq<char>, stem: Seq<char>, actual: Seq<char>) -> bool {
    let n = ascii_lower_spec(trim_spec(actual));
    n == target || strip_exe_once(n) == stem
}

/// Compares process names against one target name.
pub struct ProcessNameMatcher {
    normalized_target: String,
    target_without_extension: String,
}

impl ProcessNameMatcher {
    /// The normalized target.
    pub closed spec fn target_view(&self) -> Seq<char> {
        self.normalized_target@
    }

    /// The normalized target without one trailing `.exe`.
    pub closed spec fn stem_view(&self) -> Seq<char> {
        self.target_without_extension@
    }

    /// Whether this matcher was made for the name `target`.
    pub open spec fn made_for(&self, target: Seq<char>) -> bool {
        &&& self.target_view() == normalize_spec(target)
        &&& self.stem_view() == strip_exe_once(normalize_spec(target))
    }

    /// A matcher for the process name `target`; a name that is empty
    /// once trimmed, lower-cased and stripped of `.exe` is refused with
    /// `进程名不能为空`.
    pub fn new(target: &str) -> (r: Result<Self, AppError>)
        ensures
            match r {
                Ok(m) => {
                    &&& m.made_for(target@)
                    &&& strip_exe_once(normalize_spec(target@)).len() > 0
                    &&& is_ascii_text(target@) ==> m.target_view() == ascii_lower_spec(trim_spec(target@))
                },
                Err(e) => strip_exe_once(normalize_spec(target@)).len() == 0 && e.summary@
                    == "进程名不能为空"@ && e.detail@ == "进程名不能为空"@,
            },
    {
        let normalized_target = normalize_process_name(target);
        let target_without_extension = String::from_str(
            remove_exe_suffix(normalized_target.as_str()),
        );
        if target_without_extension.as_str().unicode_len() == 0 {
            return Err(AppError::msg("进程名不能为空"));
        }
        Ok(Self { normalized_target, target_without_extension })
    }

    /// Whether `actual` names the target process.
    pub fn matches(&self, actual: &str) -> (r: bool)
        ensures
            r == (normalize_spec(actual@) == self.target_view() || strip_exe_once(
                normalize_spec(actual@),
            ) == self.stem_view()),
            forall|target: Seq<char>|
                self.made_for(target) ==> r == normalized_names_match(
                    normalize_spec(target),
                    normalize_spec(actual@),
                ),
            is_ascii_text(actual@) ==> r == ascii_accepts(self.target_view(), self.stem_view(), actual@),
    {
        let normalized_actual = normalize_process_name(actual);
        if normalized_actual == self.normalized_target {
            return true;
        }
        let stem = String::from_str(remove_exe_suffix(normalized_actual.as_str()));
        stem == self.target_without_extension
    }
}

/// A running process as the caller lists it.
pub struct ProcessRecord {
    pub pid: u32,
    pub name: String,
}

/// The ids of the listed processes whose name the matcher accepts, in
/// list order.
pub open spec fn matching_ids_spec(target: Seq<char>, stem: Seq<char>, processes: Seq<ProcessRecord>) -> Seq<u32>
    decreases processes.len(),
{
    if processes.len() == 0 {
        Seq::<u32>::empty()
    } else {
        let earlier = matching_ids_spec(target, stem, processes.drop_last());
        let p = processes.last();
        if normalize_spec(p.name@) == target || strip_exe_once(normalize_spec(p.name@)) == stem {
            earlier.push(p.pid)
        } else {
            earlier
        }
    }
}

/// The set of ids of the listed processes whose name matches.
pub fn matching_process_ids(matcher: &ProcessNameMatcher, processes: &[ProcessRecord]) -> (ids: HashSet<u32>)
    ensures
        ids@ == matching_ids_spec(matcher.target_view(), matcher.stem_view(), processes@).to_set(),
{
    broadcast use vstd::std_specs::hash::group_hash_axioms;
    let mut ids: HashSet<u32> = HashSet::new();
    let n = processes.len();
    assert(processes@.take(0) =~= Seq::<ProcessRecord>::empty());
    assert(ids@ =~= Seq::<u32>::empty().to_set());
    for i in 0..n
        invariant
            n == processes@.len(),
            ids@ == matching_ids_spec(matcher.target_view(), matcher.stem_view(), processes@.take(i as int)).to_set(),
    {
        let ghost before = matching_ids_spec(matcher.target_view(), matcher.stem_view(), processes@.take(i as int));
        assert(processes@.take(i + 1).drop_last() =~= processes@.take(i as int));
        assert(processes@.take(i + 1).last() == processes@[i as int]);
        if matcher.matches(processes[i].name.as_str()) {
            ids.insert(processes[i].pid);
            assert(before.push(processes@[i as int].pid).to_set() =~= before.to_set().insert(processes@[i as int].pid)) by {
                broadcast use vstd::seq_lib::group_seq_properties;
            }
        }
    }
    assert(processes@.take(n as int) =~= processes@);
    ids
}

/// The class name in the first `copied` units of `buffer`, or the
/// summary and detail of the error for it: a negative count, an empty
/// name, a count beyond the buffer, or units that are no valid UTF-16.
pub open spec fn class_name_spec(buffer: Seq<u16>, copied: i32) -> Result<Seq<char>, (Seq<char>, Seq<char>)> {
    if copied < 0 {
        Err(("读取窗口类名失败"@, "读取窗口类名失败"@ + ": "@ + out_of_range_message()))
    } else if copied == 0 {
        Err(("窗口类名为空"@, "窗口类名为空"@))
    } else if copied > buffer.len() {
        Err(("窗口类名长度超出缓冲区"@, "窗口类名长度超出缓冲区"@))
    } else {
        match utf16_decode(buffer.take(copied as int)) {
            Some(name) => Ok(name),
            None => Err(("窗口类名不是有效 UTF-16"@, "窗口类名不是有效 UTF-16"@ + ": "@ + "invalid utf-16: lone surrogate found"@)),
        }
    }
}

/// The class name that `GetClassNameW` wrote: the first `copied` units
/// of `buffer`, decoded strictly.
pub fn class_name_from_buffer(buffer: &[u16], copied: i32) -> (r: Result<String, AppError>)
    ensures
        match r {
            Ok(name) => class_name_spec(buffer@, copied) == Ok::<Seq<char>, (Seq<char>, Seq<char>)>(name@),
            Err(e) => class_name_spec(buffer@, copied) == Err::<Seq<char>, (Seq<char>, Seq<char>)>((e.summary@, e.detail@)),
        },
{
    if copied < 0 {
        return Err(AppError::msg("out of range integral type conversion attempted").context("读取窗口类名失败"));
    }
    let count = copied as usize;
    if count == 0 {
        return Err(AppError::msg("窗口类名为空"));
    }
    if count > buffer.len() {
        return Err(AppError::msg("窗口类名长度超出缓冲区"));
    }
    let units = &buffer[0..count];
    assert(units@ =~= buffer@.take(count as int));
    match decode_utf16(units) {
        Some(name) => Ok(name),
        None => Err(AppError::msg("invalid utf-16: lone surrogate found").context("窗口类名不是有效 UTF-16")),
    }
}


// ---------------------------------------------------------------------
// Laws of the matcher
// ---------------------------------------------------------------------

/// The `.exe` extension is optional: for a target normalized as `target`,
/// a normalized name and the same name with `.exe` appended are accepted
/// alike, unless the name already ends in `.exe` (only one `.exe` is
/// removed).
pub proof fn lemma_extension_optional(target: Seq<char>, actual: Seq<char>)
    requires
        !ends_with_exe(actual),
    ensures
        normalized_names_match(target, actual + exe_suffix()) == normalized_names_match(target, actual),
{
    let e = exe_suffix();
    lemma_strip_exe_once_append(actual);
    if actual + e == target {
        lemma_strip_exe_once_append(actual);
    }
}

/// Matching ignores letter case, surrounding white space and the `.exe`
/// extension (for ASCII names, whose normalized form is stated): a name
/// without surrounding white space and not already ending in `.exe`,
/// written with other ASCII letter case, with `.exe` (in any letter case)
/// or nothing appended, and with white space around, is accepted by a
/// matcher exactly when the name is. Every matcher has
/// `stem == strip_exe_once(target)` (`made_for`).
pub proof fn lemma_matching_ignores_case_space_and_extension(
    target: Seq<char>,
    name: Seq<char>,
    lead: Seq<char>,
    variant: Seq<char>,
    ext: Seq<char>,
    trail: Seq<char>,
)
    requires
        unpadded(name),
        !ends_with_exe(ascii_lower_spec(name)),
        ascii_lower_spec(variant) == ascii_lower_spec(name),
        ext.len() == 0 || ascii_lower_spec(ext) == exe_suffix(),
        all_white_space(lead),
        all_white_space(trail),
    ensures
        ascii_accepts(target, strip_exe_once(target), lead + variant + ext + trail) == ascii_accepts(
            target,
            strip_exe_once(target),
            name,
        ),
{
    lemma_variant_normal_form(name, lead, variant, ext, trail);
    let n = ascii_lower_spec(name);
    if ext.len() > 0 {
        lemma_extension_optional(target, n);
    } else {
        assert(n + Seq::<char>::empty() =~= n);
    }
}

/// Normalizing an ASCII name twice gives what normalizing it once gives:
/// the normalized form is ASCII again, and its normalized form is itself.
pub proof fn lemma_ascii_normalize_idempotent(name: Seq<char>)
    requires
        is_ascii_text(name),
    ensures
        is_ascii_text(ascii_lower_spec(trim_spec(name))),
        ascii_lower_spec(trim_spec(ascii_lower_spec(trim_spec(name)))) == ascii_lower_spec(
            trim_spec(name),
        ),
{
    lemma_trim_keeps_ascii(name);
    lemma_ascii_lower_keeps_ascii(trim_spec(name));
    lemma_ascii_normal_form_idempotent(name);
}

proof fn lemma_equivalent_targets_same_ids(t1: Seq<char>, t2: Seq<char>, processes: Seq<ProcessRecord>)
    requires
        !ends_with_exe(t1),
        t2 == t1 || t2 == t1 + exe_suffix(),
    ensures
        matching_ids_spec(t1, strip_exe_once(t1), processes) == matching_ids_spec(
            t2,
            strip_exe_once(t2),
            processes,
        ),
    decreases processes.len(),
{
    if processes.len() > 0 {
        lemma_equivalent_targets_same_ids(t1, t2, processes.drop_last());
        let nx = normalize_spec(processes.last().name@);
        if t2 != t1 {
            lemma_strip_exe_once_append(t1);
            lemma_extension_optional(nx, t1);
            if nx == t1 + exe_suffix() {
                lemma_strip_exe_once_append(t1);
            }
        }
    }
}

/// The window search finds the same processes for every way of writing
/// an ASCII process name: a name without surrounding white space and not
/// ending in `.exe`, written with other ASCII letter case, with `.exe` (in
/// any letter case) or nothing appended, and with white space around,
/// gives matchers (whose normalized targets are the trimmed ASCII
/// lower-case forms) that select the same ids from any process list.
pub proof fn lemma_name_variants_select_same_processes(
    name: Seq<char>,
    lead: Seq<char>,
    variant: Seq<char>,
    ext: Seq<char>,
    trail: Seq<char>,
    processes: Seq<ProcessRecord>,
)
    requires
        unpadded(name),
        !ends_with_exe(ascii_lower_spec(name)),
        ascii_lower_spec(variant) == ascii_lower_spec(name),
        ext.len() == 0 || ascii_lower_spec(ext) == exe_suffix(),
        all_white_space(lead),
        all_white_space(trail),
    ensures
        ({
            let t1 = ascii_lower_spec(trim_spec(name));
            let t2 = ascii_lower_spec(trim_spec(lead + variant + ext + trail));
            matching_ids_spec(t1, strip_exe_once(t1), processes) == matching_ids_spec(
                t2,
                strip_exe_once(t2),
                processes,
            )
        }),
{
    lemma_variant_normal_form(name, lead, variant, ext, trail);
    let n = ascii_lower_spec(name);
    if ext.len() == 0 {
        assert(n + Seq::<char>::empty() =~= n);
    }
    lemma_equivalent_targets_same_ids(n, ascii_lower_spec(trim_spec(lead + variant + ext + trail)), processes);
}


/// The normalized target of a matcher made for the ASCII name `name`.
pub open spec fn ascii_target(name: Seq<char>) -> Seq<char> {
    ascii_lower_spec(trim_spec(name))
}

/// The ids that a matcher made for the ASCII name `name` selects from
/// the listed processes.
pub open spec fn ids_for_name(name: Seq<char>, processes: Seq<ProcessRecord>) -> Set<u32> {
    matching_ids_spec(ascii_target(name), strip_exe_once(ascii_target(name)), processes).to_set()
}

/// Every way of writing an ASCII process name gives the same window
/// search: a name without surrounding white space and not ending in
/// `.exe`, written with other ASCII letter case, with `.exe` (in any
/// letter case) or nothing appended, and with white space around,
/// selects the same processes, so the same windows of one walk are kept
/// (`WindowSelection::wants`), and their ordering by handle
/// (`WindowSelection::into_sorted_windows`) is the same list. The walk is
/// given as the (process id, description) pairs of the windows met.
pub proof fn lemma_name_variants_find_same_windows(
    name: Seq<char>,
    lead: Seq<char>,
    variant: Seq<char>,
    ext: Seq<char>,
    trail: Seq<char>,
    processes: Seq<ProcessRecord>,
    walk: Seq<(u32, WindowEntry)>,
    found1: Seq<WindowEntry>,
    found2: Seq<WindowEntry>,
)
    requires
        unpadded(name),
        !ends_with_exe(ascii_lower_spec(name)),
        ascii_lower_spec(variant) == ascii_lower_spec(name),
        ext.len() == 0 || ascii_lower_spec(ext) == exe_suffix(),
        all_white_space(lead),
        all_white_space(trail),
        stable_sort_by_hwnd(found1, selected_windows(ids_for_name(name, processes), walk)),
        stable_sort_by_hwnd(
            found2,
            selected_windows(ids_for_name(lead + variant + ext + trail, processes), walk),
        ),
    ensures
        ids_for_name(name, processes) == ids_for_name(lead + variant + ext + trail, processes),
        found1 == found2,
{
    lemma_name_variants_select_same_processes(name, lead, variant, ext, trail, processes);
    lemma_stable_sort_unique(found1, found2, selected_windows(ids_for_name(name, processes), walk));
}

} // verus!
