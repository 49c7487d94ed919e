//! Character and string helpers: Unicode white space and trimming,
//! ASCII lower-casing, `.exe` suffix removal, UTF-16 decoding,
//! lexicographic order and joining.
use vstd::prelude::*;
use vstd::string::*;

verus! {

/// Appends one character to a string (`String::push`).
#[verifier::external_body]
pub(crate) fn push_char(s: &mut String, c: char)
    ensures
        final(s)@ == old(s)@.push(c),
{
    s.push(c);
}

/// `char::from_u32`: the character with scalar value `v`, if `v` is a
/// Unicode scalar value (at most 0x10FFFF and not a surrogate).
#[verifier::external_body]
pub(crate) fn char_from_u32(v: u32) -> (c: Option<char>)
    ensures
        c is Some <==> (v <= 0x10FFFF && !(0xD800 <= v && v <= 0xDFFF)),
        c matches Some(ch) ==> ch as u32 == v && ch == v as char,
{
    char::from_u32(v)
}

// ---------------------------------------------------------------------
// White space and trimming
// ---------------------------------------------------------------------

/// The Unicode `White_Space` property, which `char::is_whitespace` and
/// `str::trim` go by.
pub open spec fn is_white_space(c: char) -> bool {
    let v = c as u32;
    ||| (0x09 <= v && v <= 0x0D)
    ||| v == 0x20
    ||| v == 0x85
    ||| v == 0xA0
    ||| v == 0x1680
    ||| (0x2000 <= v && v <= 0x200A)
    ||| v == 0x2028
    ||| v == 0x2029
    ||| v == 0x202F
    ||| v == 0x205F
    ||| v == 0x3000
}

/// `s` without its leading white space.
pub open spec fn trim_start_spec(s: Seq<char>) -> Seq<char>
    decreases s.len(),
{
    if s.len() > 0 && is_white_space(s[0]) {
        trim_start_spec(s.drop_first())
    } else {
        s
    }
}

/// `s` without its trailing white space.
pub open spec fn trim_end_spec(s: Seq<char>) -> Seq<char>
    decreases s.len(),
{
    if s.len() > 0 && is_white_space(s.last()) {
        trim_end_spec(s.drop_last())
    } else {
        s
    }
}

/// `s` without leading and trailing white space (`str::trim`).
pub open spec fn trim_spec(s: Seq<char>) -> Seq<char> {
    trim_end_spec(trim_start_spec(s))
}

/// Whether `c` is white space (`char::is_whitespace`).
pub fn is_whitespace(c: char) -> (r: bool)
    ensures
        r == is_white_space(c),
{
    let v = c as u32;
    (0x09 <= v && v <= 0x0D) || v == 0x20 || v == 0x85 || v == 0xA0 || v == 0x1680 || (0x2000
        <= v && v <= 0x200A) || v == 0x2028 || v == 0x2029 || v == 0x202F || v == 0x205F || v
        == 0x3000
}

/// `s` without leading and trailing white space (`str::trim`).
pub fn trim(s: &str) -> (r: &str)
    ensures
        r@ == trim_spec(s@),
{
    let n = s.unicode_len();
    let mut i: usize = 0;
    assert(s@.subrange(0, n as int) =~= s@);
    loop
        invariant
            n == s@.len(),
            0 <= i <= n,
            trim_start_spec(s@) == trim_start_spec(s@.subrange(i as int, n as int)),
        ensures
            0 <= i <= n,
            trim_start_spec(s@) == s@.subrange(i as int, n as int),
        decreases n - i,
    {
        if i == n {
            break;
        }
        let c = s.get_char(i);
        if !is_whitespace(c) {
            break;
        }
        assert(s@.subrange(i as int, n as int).drop_first() =~= s@.subrange(i + 1, n as int));
        i = i + 1;
    }
    let mut j: usize = n;
    loop
        invariant
            n == s@.len(),
            0 <= i <= j <= n,
            trim_spec(s@) == trim_end_spec(s@.subrange(i as int, j as int)),
        ensures
            0 <= i <= j <= n,
            trim_spec(s@) == s@.subrange(i as int, j as int),
        decreases j - i,
    {
        if j == i {
            break;
        }
        let c = s.get_char(j - 1);
        if !is_whitespace(c) {
            break;
        }
        assert(s@.subrange(i as int, j as int).drop_last() =~= s@.subrange(i as int, j - 1));
        j = j - 1;
    }
    s.substring_char(i, j)
}


// ---------------------------------------------------------------------
// Lower-casing
// ---------------------------------------------------------------------

/// The ASCII lower-case form of `c`: `A`..`Z` become `a`..`z`, every
/// other character is kept.
pub open spec fn ascii_lower_char(c: char) -> char {
    if 'A' <= c && c <= 'Z' {
        ((c as u32) + 32) as char
    } else {
        c
    }
}

/// `s` with every character ASCII lower-cased (`str::to_ascii_lowercase`).
pub open spec fn ascii_lower_spec(s: Seq<char>) -> Seq<char> {
    s.map_values(|c: char| ascii_lower_char(c))
}

/// `s` ASCII lower-cased (`str::to_ascii_lowercase`).
pub fn to_ascii_lowercase(s: &str) -> (r: String)
    ensures
        r@ == ascii_lower_spec(s@),
{
    let n = s.unicode_len();
    let mut out = String::new();
    for i in 0..n
        invariant
            n == s@.len(),
            out@ =~= ascii_lower_spec(s@.subrange(0, i as int)),
    {
        let c = s.get_char(i);
        let lower = if 'A' <= c && c <= 'Z' {
            ((c as u8) + 32) as char
        } else {
            c
        };
        push_char(&mut out, lower);
        assert(s@.subrange(0, i + 1) =~= s@.subrange(0, i as int).push(c));
    }
    assert(s@.subrange(0, n as int) =~= s@);
    out
}

/// What `str::to_lowercase` returns for a string: its lower-case form
/// under the Unicode `Lowercase` mapping, which is context-dependent
/// for a few characters (a final sigma), so it is not a map over single
/// characters.
pub uninterp spec fn unicode_lowercase(s: Seq<char>) -> Seq<char>;

/// Whether every character is ASCII.
pub open spec fn is_ascii_text(s: Seq<char>) -> bool {
    forall|i: int| 0 <= i < s.len() ==> (#[trigger] s[i] as u32) < 128
}

/// `str::to_lowercase`: the result is named `unicode_lowercase`; on
/// ASCII text it is the ASCII lower-case form, since the Unicode
/// lower-case mapping of `A`..`Z` is `a`..`z` and leaves the other ASCII
/// characters as they are. Nothing else about non-ASCII text is stated.
#[verifier::external_body]
pub(crate) fn to_lowercase(s: &str) -> (r: String)
    ensures
        r@ == unicode_lowercase(s@),
        is_ascii_text(s@) ==> r@ == ascii_lower_spec(s@),
{
    s.to_lowercase()
}

// ---------------------------------------------------------------------
// The `.exe` suffix
// ---------------------------------------------------------------------

/// The characters of `.exe`.
pub open spec fn exe_suffix() -> Seq<char> {
    seq!['.', 'e', 'x', 'e']
}

/// Whether `s` ends with `.exe`.
pub open spec fn ends_with_exe(s: Seq<char>) -> bool {
    s.len() >= 4 && s.subrange(s.len() - 4, s.len() as int) == exe_suffix()
}

/// `s` with one trailing `.exe` removed, if it has one
/// (`str::strip_suffix(".exe").unwrap_or(s)`).
pub open spec fn strip_exe_once(s: Seq<char>) -> Seq<char> {
    if ends_with_exe(s) {
        s.subrange(0, s.len() - 4)
    } else {
        s
    }
}

/// `s` with every trailing `.exe` removed (`str::trim_end_matches(".exe")`).
pub open spec fn strip_exe_all(s: Seq<char>) -> Seq<char>
    decreases s.len(),
{
    if ends_with_exe(s) {
        strip_exe_all(s.subrange(0, s.len() - 4))
    } else {
        s
    }
}

/// Whether the first `end` characters of `s` end with `.exe`.
fn prefix_ends_with_exe(s: &str, end: usize) -> (r: bool)
    requires
        end <= s@.len(),
    ensures
        r == ends_with_exe(s@.subrange(0, end as int)),
{
    if end < 4 {
        return false;
    }
    let c0 = s.get_char(end - 4);
    let c1 = s.get_char(end - 3);
    let c2 = s.get_char(end - 2);
    let c3 = s.get_char(end - 1);
    let r = c0 == '.' && c1 == 'e' && c2 == 'x' && c3 == 'e';
    let ghost p = s@.subrange(0, end as int);
    let ghost tail = p.subrange(p.len() - 4, p.len() as int);
    assert(tail[0] == c0 && tail[1] == c1 && tail[2] == c2 && tail[3] == c3);
    if r {
        assert(tail =~= exe_suffix());
    } else {
        assert(tail != exe_suffix()) by {
            if tail == exe_suffix() {
                assert(tail[0] == '.' && tail[1] == 'e' && tail[2] == 'x' && tail[3] == 'e');
            }
        }
    }
    r
}

/// `s` with one trailing `.exe` removed, if it has one.
pub fn strip_exe_suffix_once(s: &str) -> (r: &str)
    ensures
        r@ == strip_exe_once(s@),
{
    let n = s.unicode_len();
    assert(s@.subrange(0, n as int) =~= s@);
    if prefix_ends_with_exe(s, n) {
        s.substring_char(0, n - 4)
    } else {
        s.substring_char(0, n)
    }
}

/// `s` with every trailing `.exe` removed.
pub fn strip_exe_suffix_all(s: &str) -> (r: &str)
    ensures
        r@ == strip_exe_all(s@),
{
    let n = s.unicode_len();
    let mut end: usize = n;
    assert(s@.subrange(0, n as int) =~= s@);
    while prefix_ends_with_exe(s, end)
        invariant
            n == s@.len(),
            end <= n,
            strip_exe_all(s@) == strip_exe_all(s@.subrange(0, end as int)),
        decreases end,
    {
        assert(s@.subrange(0, end as int).subrange(0, end - 4) =~= s@.subrange(0, end - 4));
        end = end - 4;
    }
    s.substring_char(0, end)
}

// ---------------------------------------------------------------------
// UTF-16
// ---------------------------------------------------------------------

/// A UTF-16 code unit that opens a surrogate pair.
pub open spec fn is_high_surrogate(u: u16) -> bool {
    0xD800 <= u && u <= 0xDBFF
}

/// A UTF-16 code unit that closes a surrogate pair.
pub open spec fn is_low_surrogate(u: u16) -> bool {
    0xDC00 <= u && u <= 0xDFFF
}

/// The character that a surrogate pair encodes.
pub open spec fn surrogate_pair_char(high: u16, low: u16) -> char {
    (0x10000 + (high - 0xD800) * 0x400 + (low - 0xDC00)) as char
}

/// The character that a code unit outside the surrogate range encodes.
pub open spec fn single_unit_char(u: u16) -> char {
    (u as u32) as char
}

/// The text that `units` encode in UTF-16, or `None` where they hold an
/// unpaired surrogate (`String::from_utf16`).
pub open spec fn utf16_decode(units: Seq<u16>) -> Option<Seq<char>>
    decreases units.len(),
{
    if units.len() == 0 {
        Some(Seq::<char>::empty())
    } else if !is_high_surrogate(units[0]) && !is_low_surrogate(units[0]) {
        match utf16_decode(units.drop_first()) {
            Some(rest) => Some(seq![single_unit_char(units[0])] + rest),
            None => None,
        }
    } else if is_high_surrogate(units[0]) && units.len() >= 2 && is_low_surrogate(units[1]) {
        match utf16_decode(units.skip(2)) {
            Some(rest) => Some(seq![surrogate_pair_char(units[0], units[1])] + rest),
            None => None,
        }
    } else {
        None
    }
}

/// The text that `units` encode in UTF-16, each unpaired surrogate
/// replaced by U+FFFD (`String::from_utf16_lossy`).
pub open spec fn utf16_decode_lossy(units: Seq<u16>) -> Seq<char>
    decreases units.len(),
{
    if units.len() == 0 {
        Seq::<char>::empty()
    } else if !is_high_surrogate(units[0]) && !is_low_surrogate(units[0]) {
        seq![single_unit_char(units[0])] + utf16_decode_lossy(units.drop_first())
    } else if is_high_surrogate(units[0]) && units.len() >= 2 && is_low_surrogate(units[1]) {
        seq![surrogate_pair_char(units[0], units[1])] + utf16_decode_lossy(units.skip(2))
    } else {
        seq!['\u{FFFD}'] + utf16_decode_lossy(units.drop_first())
    }
}

/// One decoding step at `units[i]`: the character and how many units
/// it took, or `None` for an unpaired surrogate.
fn decode_step(units: &[u16], i: usize) -> (r: Option<(char, usize)>)
    requires
        i < units@.len(),
    ensures
        ({
            let u = units@.skip(i as int);
            match r {
                Some((c, k)) => {
                    &&& !is_high_surrogate(u[0]) && !is_low_surrogate(u[0]) ==> c == single_unit_char(u[0]) && k == 1
                    &&& (is_high_surrogate(u[0]) && u.len() >= 2 && is_low_surrogate(u[1])) ==> c == surrogate_pair_char(u[0], u[1]) && k == 2
                    &&& (!is_high_surrogate(u[0]) && !is_low_surrogate(u[0])) || (is_high_surrogate(u[0]) && u.len() >= 2 && is_low_surrogate(u[1]))
                },
                None => !((!is_high_surrogate(u[0]) && !is_low_surrogate(u[0])) || (is_high_surrogate(u[0]) && u.len() >= 2 && is_low_surrogate(u[1]))),
            }
        }),
{
    let u0 = units[i];
    if u0 < 0xD800 || u0 > 0xDFFF {
        let c = char_from_u32(u0 as u32);
        match c {
            Some(ch) => {
                assert(ch == single_unit_char(u0));
                Some((ch, 1))
            },
            None => None,
        }
    } else if u0 <= 0xDBFF && i + 1 < units.len() && 0xDC00 <= units[i + 1] && units[i + 1] <= 0xDFFF {
        let u1 = units[i + 1];
        let v: u32 = 0x10000 + ((u0 - 0xD800) as u32) * 0x400 + ((u1 - 0xDC00) as u32);
        let c = char_from_u32(v);
        match c {
            Some(ch) => {
                assert(ch == surrogate_pair_char(u0, u1));
                Some((ch, 2))
            },
            None => None,
        }
    } else {
        None
    }
}

/// Decodes UTF-16 strictly (`String::from_utf16`): `None` where the
/// units hold an unpaired surrogate.
pub fn decode_utf16(units: &[u16]) -> (r: Option<String>)
    ensures
        match r {
            Some(s) => utf16_decode(units@) == Some(s@),
            None => utf16_decode(units@) is None,
        },
{
    let n = units.len();
    let mut out = String::new();
    let mut i: usize = 0;
    assert(units@.skip(0) =~= units@);
    while i < n
        invariant
            n == units@.len(),
            0 <= i <= n,
            utf16_decode(units@.skip(i as int)) matches Some(rest) ==> utf16_decode(units@) == Some(out@ + rest),
            utf16_decode(units@.skip(i as int)) is None ==> utf16_decode(units@) is None,
        decreases n - i,
    {
        let ghost u = units@.skip(i as int);
        match decode_step(units, i) {
            Some((c, k)) => {
                if k == 1 {
                    assert(u.drop_first() =~= units@.skip(i + 1));
                } else {
                    assert(u.skip(2) =~= units@.skip(i + 2));
                }
                proof {
                    if let Some(rest) = utf16_decode(units@.skip(i + k)) {
                        assert(out@.push(c) + rest =~= out@ + (seq![c] + rest));
                    }
                }
                push_char(&mut out, c);
                i = i + k;
            },
            None => {
                return None;
            },
        }
    }
    assert(units@.skip(n as int) =~= Seq::<u16>::empty());
    assert(out@ + Seq::<char>::empty() =~= out@);
    Some(out)
}

/// Decodes UTF-16, replacing each unpaired surrogate by U+FFFD
/// (`String::from_utf16_lossy`).
pub fn decode_utf16_lossy(units: &[u16]) -> (r: String)
    ensures
        r@ == utf16_decode_lossy(units@),
{
    let n = units.len();
    let mut out = String::new();
    let mut i: usize = 0;
    assert(units@.skip(0) =~= units@);
    while i < n
        invariant
            n == units@.len(),
            0 <= i <= n,
            utf16_decode_lossy(units@) == out@ + utf16_decode_lossy(units@.skip(i as int)),
        decreases n - i,
    {
        let ghost u = units@.skip(i as int);
        let (c, k) = match decode_step(units, i) {
            Some((c, k)) => (c, k),
            None => ('\u{FFFD}', 1),
        };
        if k == 1 {
            assert(u.drop_first() =~= units@.skip(i + 1));
        } else {
            assert(u.skip(2) =~= units@.skip(i + 2));
        }
        assert(out@.push(c) + utf16_decode_lossy(units@.skip(i + k)) =~= out@ + (seq![c]
            + utf16_decode_lossy(units@.skip(i + k))));
        push_char(&mut out, c);
        i = i + k;
    }
    assert(units@.skip(n as int) =~= Seq::<u16>::empty());
    assert(out@ + Seq::<char>::empty() =~= out@);
    out
}


// ---------------------------------------------------------------------
// Lexicographic order
// ---------------------------------------------------------------------

/// Whether `a` comes strictly before `b` in lexicographic order by
/// scalar value, the order of `String`'s `Ord` (UTF-8 bytes compare as
/// the scalar values they encode).
pub open spec fn lex_lt(a: Seq<char>, b: Seq<char>) -> bool
    decreases a.len(),
{
    if a.len() == 0 {
        b.len() > 0
    } else if b.len() == 0 {
        false
    } else if a[0] != b[0] {
        a[0] < b[0]
    } else {
        lex_lt(a.drop_first(), b.drop_first())
    }
}

/// Lexicographic order is irreflexive.
pub proof fn lemma_lex_lt_irreflexive(a: Seq<char>)
    ensures
        !lex_lt(a, a),
    decreases a.len(),
{
    if a.len() > 0 {
        lemma_lex_lt_irreflexive(a.drop_first());
    }
}

/// Lexicographic order is transitive.
pub proof fn lemma_lex_lt_transitive(a: Seq<char>, b: Seq<char>, c: Seq<char>)
    requires
        lex_lt(a, b),
        lex_lt(b, c),
    ensures
        lex_lt(a, c),
    decreases a.len(),
{
    if a.len() > 0 && b.len() > 0 && c.len() > 0 && a[0] == b[0] && b[0] == c[0] {
        lemma_lex_lt_transitive(a.drop_first(), b.drop_first(), c.drop_first());
    }
}

/// Lexicographic order is asymmetric.
pub proof fn lemma_lex_lt_asymmetric(a: Seq<char>, b: Seq<char>)
    requires
        lex_lt(a, b),
    ensures
        !lex_lt(b, a),
{
    if lex_lt(b, a) {
        lemma_lex_lt_transitive(a, b, a);
        lemma_lex_lt_irreflexive(a);
    }
}

/// Lexicographic order is total: of two different sequences one comes
/// first.
pub proof fn lemma_lex_lt_total(a: Seq<char>, b: Seq<char>)
    ensures
        a == b || lex_lt(a, b) || lex_lt(b, a),
    decreases a.len(),
{
    if a.len() > 0 && b.len() > 0 {
        if a[0] == b[0] {
            lemma_lex_lt_total(a.drop_first(), b.drop_first());
            if a.drop_first() == b.drop_first() {
                assert(a =~= seq![a[0]] + a.drop_first());
                assert(b =~= seq![b[0]] + b.drop_first());
            }
        }
    } else if a.len() == 0 && b.len() == 0 {
        assert(a =~= b);
    }
}

/// Whether `a` comes strictly before `b` (`a < b` on strings).
pub fn lex_less(a: &str, b: &str) -> (r: bool)
    ensures
        r == lex_lt(a@, b@),
{
    let n = a.unicode_len();
    let m = b.unicode_len();
    let mut i: usize = 0;
    assert(a@.skip(0) =~= a@);
    assert(b@.skip(0) =~= b@);
    loop
        invariant
            n == a@.len(),
            m == b@.len(),
            i <= n,
            i <= m,
            lex_lt(a@, b@) == lex_lt(a@.skip(i as int), b@.skip(i as int)),
        decreases n - i,
    {
        if i == n {
            return i < m;
        }
        if i == m {
            return false;
        }
        let x = a.get_char(i);
        let y = b.get_char(i);
        if x != y {
            return x < y;
        }
        assert(a@.skip(i as int).drop_first() =~= a@.skip(i + 1));
        assert(b@.skip(i as int).drop_first() =~= b@.skip(i + 1));
        i = i + 1;
    }
}

// ---------------------------------------------------------------------
// Joining
// ---------------------------------------------------------------------

/// The character sequences of a sequence of strings.
pub open spec fn string_views(parts: Seq<String>) -> Seq<Seq<char>> {
    parts.map_values(|s: String| s@)
}

/// `parts` joined with `sep` between neighbours (`[String]::join`).
pub open spec fn join_spec(parts: Seq<Seq<char>>, sep: Seq<char>) -> Seq<char>
    decreases parts.len(),
{
    if parts.len() == 0 {
        Seq::<char>::empty()
    } else if parts.len() == 1 {
        parts[0]
    } else {
        join_spec(parts.drop_last(), sep) + sep + parts.last()
    }
}

/// `parts` joined with `sep` between neighbours.
pub fn join(parts: &[String], sep: &str) -> (r: String)
    ensures
        r@ == join_spec(string_views(parts@), sep@),
{
    let mut out = String::new();
    let n = parts.len();
    for i in 0..n
        invariant
            n == parts@.len(),
            out@ == join_spec(string_views(parts@.subrange(0, i as int)), sep@),
    {
        let ghost before = string_views(parts@.subrange(0, i as int));
        let ghost after = string_views(parts@.subrange(0, i + 1));
        assert(after.drop_last() =~= before);
        assert(after.last() == parts@[i as int]@);
        if i > 0 {
            out.append(sep);
        } else {
            assert(after.len() == 1);
        }
        out.append(parts[i].as_str());
    }
    assert(parts@.subrange(0, n as int) =~= parts@);
    out
}

/// Every part occurs in the joined text: `parts[i]` stands at some
/// position of `join(parts, sep)`.
pub proof fn lemma_join_contains_part(parts: Seq<Seq<char>>, sep: Seq<char>, i: int)
    requires
        0 <= i < parts.len(),
    ensures
        exists|k: int|
            0 <= k && k + parts[i].len() <= join_spec(parts, sep).len() && #[trigger] join_spec(
                parts,
                sep,
            ).subrange(k, k + parts[i].len()) == parts[i],
    decreases parts.len(),
{
    let j = join_spec(parts, sep);
    if parts.len() == 1 {
        let k = 0int;
        assert(j.subrange(k, k + parts[i].len()) =~= parts[i]);
        assert(join_spec(parts, sep).subrange(k, k + parts[i].len()) == parts[i]);
    } else if i == parts.len() - 1 {
        let k = j.len() - parts[i].len();
        assert(j.subrange(k, k + parts[i].len()) =~= parts[i]);
        assert(join_spec(parts, sep).subrange(k, k + parts[i].len()) == parts[i]);
    } else {
        lemma_join_contains_part(parts.drop_last(), sep, i);
        let inner = join_spec(parts.drop_last(), sep);
        let k = choose|k: int|
            0 <= k && k + parts[i].len() <= inner.len() && #[trigger] inner.subrange(
                k,
                k + parts[i].len(),
            ) == parts[i];
        assert(j.subrange(k, k + parts[i].len()) =~= inner.subrange(k, k + parts[i].len()));
        assert(join_spec(parts, sep).subrange(k, k + parts[i].len()) == parts[i]);
    }
}


// ---------------------------------------------------------------------
// Decimal numbers
// ---------------------------------------------------------------------

/// The decimal digit for `d < 10`.
pub open spec fn decimal_digit_char(d: int) -> char {
    if d == 0 {
        '0'
    } else if d == 1 {
        '1'
    } else if d == 2 {
        '2'
    } else if d == 3 {
        '3'
    } else if d == 4 {
        '4'
    } else if d == 5 {
        '5'
    } else if d == 6 {
        '6'
    } else if d == 7 {
        '7'
    } else if d == 8 {
        '8'
    } else {
        '9'
    }
}

/// `v` in decimal, without leading zeros (`v.to_string()`).
pub open spec fn decimal_spec(v: nat) -> Seq<char>
    decreases v,
{
    if v < 10 {
        seq![decimal_digit_char(v as int)]
    } else {
        decimal_spec(v / 10).push(decimal_digit_char((v % 10) as int))
    }
}

fn decimal_digit(d: u64) -> (c: char)
    requires
        d < 10,
    ensures
        c == decimal_digit_char(d as int),
{
    if d == 0 {
        '0'
    } else if d == 1 {
        '1'
    } else if d == 2 {
        '2'
    } else if d == 3 {
        '3'
    } else if d == 4 {
        '4'
    } else if d == 5 {
        '5'
    } else if d == 6 {
        '6'
    } else if d == 7 {
        '7'
    } else if d == 8 {
        '8'
    } else {
        '9'
    }
}

fn push_decimal(out: &mut String, v: u64)
    ensures
        final(out)@ == old(out)@ + decimal_spec(v as nat),
    decreases v,
{
    if v < 10 {
        push_char(out, decimal_digit(v));
        assert(old(out)@.push(decimal_digit_char(v as int)) =~= old(out)@ + decimal_spec(v as nat));
    } else {
        push_decimal(out, v / 10);
        push_char(out, decimal_digit(v % 10));
        assert(old(out)@ + decimal_spec((v / 10) as nat) + seq![decimal_digit_char((v % 10) as int)]
            =~= old(out)@ + decimal_spec(v as nat));
    }
}

/// `v` in decimal (`v.to_string()`).
pub fn format_decimal(v: u64) -> (s: String)
    ensures
        s@ == decimal_spec(v as nat),
{
    let mut out = String::new();
    push_decimal(&mut out, v);
    assert(Seq::<char>::empty() + decimal_spec(v as nat) =~= decimal_spec(v as nat));
    out
}


// ---------------------------------------------------------------------
// Facts about trimming, lower-casing and the `.exe` suffix
// ---------------------------------------------------------------------

/// ASCII lower-casing never turns white space into other text or back.
pub proof fn lemma_ascii_lower_keeps_white_space(c: char)
    ensures
        is_white_space(ascii_lower_char(c)) == is_white_space(c),
{
}

/// Trimming the start commutes with ASCII lower-casing.
pub proof fn lemma_trim_start_ascii_lower(s: Seq<char>)
    ensures
        ascii_lower_spec(trim_start_spec(s)) == trim_start_spec(ascii_lower_spec(s)),
    decreases s.len(),
{
    let l = ascii_lower_spec(s);
    if s.len() > 0 {
        lemma_ascii_lower_keeps_white_space(s[0]);
        assert(l[0] == ascii_lower_char(s[0]));
        if is_white_space(s[0]) {
            assert(ascii_lower_spec(s.drop_first()) =~= l.drop_first());
            lemma_trim_start_ascii_lower(s.drop_first());
        }
    }
}

/// Trimming the end commutes with ASCII lower-casing.
pub proof fn lemma_trim_end_ascii_lower(s: Seq<char>)
    ensures
        ascii_lower_spec(trim_end_spec(s)) == trim_end_spec(ascii_lower_spec(s)),
    decreases s.len(),
{
    let l = ascii_lower_spec(s);
    if s.len() > 0 {
        lemma_ascii_lower_keeps_white_space(s.last());
        assert(l.last() == ascii_lower_char(s.last()));
        if is_white_space(s.last()) {
            assert(ascii_lower_spec(s.drop_last()) =~= l.drop_last());
            lemma_trim_end_ascii_lower(s.drop_last());
        }
    }
}

/// Trimming the start of a name with `.exe` appended trims the name.
pub proof fn lemma_trim_start_append_exe(a: Seq<char>)
    ensures
        trim_start_spec(a + exe_suffix()) == trim_start_spec(a) + exe_suffix(),
    decreases a.len(),
{
    if a.len() > 0 && is_white_space(a[0]) {
        assert((a + exe_suffix()).drop_first() =~= a.drop_first() + exe_suffix());
        lemma_trim_start_append_exe(a.drop_first());
    } else if a.len() == 0 {
        assert(a + exe_suffix() =~= exe_suffix());
        assert(Seq::<char>::empty() + exe_suffix() =~= exe_suffix());
    }
}

/// Trimming the start keeps the last character of a nonempty result.
pub proof fn lemma_trim_start_keeps_last(a: Seq<char>)
    requires
        trim_start_spec(a).len() > 0,
    ensures
        trim_start_spec(a).last() == a.last(),
        a.len() > 0,
    decreases a.len(),
{
    if a.len() > 0 && is_white_space(a[0]) {
        lemma_trim_start_keeps_last(a.drop_first());
    }
}

/// Removing every trailing `.exe` ignores one more `.exe`.
pub proof fn lemma_strip_exe_all_append(x: Seq<char>)
    ensures
        strip_exe_all(x + exe_suffix()) == strip_exe_all(x),
{
    let y = x + exe_suffix();
    assert(y.subrange(y.len() - 4, y.len() as int) =~= exe_suffix());
    assert(y.subrange(0, y.len() - 4) =~= x);
}


/// Trimming keeps ASCII text ASCII.
pub proof fn lemma_trim_keeps_ascii(s: Seq<char>)
    requires
        is_ascii_text(s),
    ensures
        is_ascii_text(trim_start_spec(s)),
        is_ascii_text(trim_spec(s)),
    decreases s.len(),
{
    if s.len() > 0 && is_white_space(s[0]) {
        assert(is_ascii_text(s.drop_first())) by {
            assert forall|i: int| 0 <= i < s.drop_first().len() implies (#[trigger] s.drop_first()[i] as u32) < 128 by {
                assert(s.drop_first()[i] == s[i + 1]);
            }
        }
        lemma_trim_keeps_ascii(s.drop_first());
    }
    lemma_trim_end_keeps_ascii(trim_start_spec(s));
}

proof fn lemma_trim_end_keeps_ascii(s: Seq<char>)
    requires
        is_ascii_text(s),
    ensures
        is_ascii_text(trim_end_spec(s)),
    decreases s.len(),
{
    if s.len() > 0 && is_white_space(s.last()) {
        assert(is_ascii_text(s.drop_last())) by {
            assert forall|i: int| 0 <= i < s.drop_last().len() implies (#[trigger] s.drop_last()[i] as u32) < 128 by {
                assert(s.drop_last()[i] == s[i]);
            }
        }
        lemma_trim_end_keeps_ascii(s.drop_last());
    }
}

/// Appending `.exe` to a name that does not end in white space appends
/// it to the trimmed name.
pub proof fn lemma_trim_append_exe(a: Seq<char>)
    requires
        a.len() == 0 || !is_white_space(a.last()),
    ensures
        trim_spec(a + exe_suffix()) == trim_spec(a) + exe_suffix(),
{
    let e = exe_suffix();
    let ts = trim_start_spec(a);
    lemma_trim_start_append_exe(a);
    assert((ts + e).last() == 'e');
    assert(trim_end_spec(ts + e) == ts + e);
    if ts.len() > 0 {
        lemma_trim_start_keeps_last(a);
    }
    assert(trim_end_spec(ts) == ts);
}

/// ASCII lower-casing leaves `.exe` as it is.
pub proof fn lemma_ascii_lower_append_exe(t: Seq<char>)
    ensures
        ascii_lower_spec(t + exe_suffix()) == ascii_lower_spec(t) + exe_suffix(),
{
    assert(ascii_lower_spec(t + exe_suffix()) =~= ascii_lower_spec(t) + exe_suffix());
}

/// Removing one trailing `.exe` from a name with `.exe` appended gives
/// the name.
pub proof fn lemma_strip_exe_once_append(x: Seq<char>)
    ensures
        strip_exe_once(x + exe_suffix()) == x,
{
    let y = x + exe_suffix();
    assert(y.subrange(y.len() - 4, y.len() as int) =~= exe_suffix());
    assert(y.subrange(0, y.len() - 4) =~= x);
}


// ---------------------------------------------------------------------
// Names written with other case, padding or an extension
// ---------------------------------------------------------------------

/// Whether every character of `s` is white space.
pub open spec fn all_white_space(s: Seq<char>) -> bool {
    forall|i: int| 0 <= i < s.len() ==> is_white_space(#[trigger] s[i])
}

/// Whether `s` neither starts nor ends with white space.
pub open spec fn unpadded(s: Seq<char>) -> bool {
    s.len() == 0 || (!is_white_space(s[0]) && !is_white_space(s.last()))
}

/// White space in front does not change the trimmed start.
pub proof fn lemma_trim_start_white_prefix(lead: Seq<char>, rest: Seq<char>)
    requires
        all_white_space(lead),
    ensures
        trim_start_spec(lead + rest) == trim_start_spec(rest),
    decreases lead.len(),
{
    if lead.len() == 0 {
        assert(lead + rest =~= rest);
    } else {
        assert((lead + rest)[0] == lead[0]);
        assert((lead + rest).drop_first() =~= lead.drop_first() + rest);
        assert(all_white_space(lead.drop_first())) by {
            assert forall|i: int| 0 <= i < lead.drop_first().len() implies is_white_space(#[trigger] lead.drop_first()[i]) by {
                assert(lead.drop_first()[i] == lead[i + 1]);
            }
        }
        lemma_trim_start_white_prefix(lead.drop_first(), rest);
    }
}

/// White space behind does not change the trimmed end.
pub proof fn lemma_trim_end_white_suffix(rest: Seq<char>, trail: Seq<char>)
    requires
        all_white_space(trail),
    ensures
        trim_end_spec(rest + trail) == trim_end_spec(rest),
    decreases trail.len(),
{
    if trail.len() == 0 {
        assert(rest + trail =~= rest);
    } else {
        assert((rest + trail).last() == trail.last());
        assert((rest + trail).drop_last() =~= rest + trail.drop_last());
        assert(all_white_space(trail.drop_last())) by {
            assert forall|i: int| 0 <= i < trail.drop_last().len() implies is_white_space(#[trigger] trail.drop_last()[i]) by {
                assert(trail.drop_last()[i] == trail[i]);
            }
        }
        lemma_trim_end_white_suffix(rest, trail.drop_last());
    }
}

/// Trimming white space around an unpadded text gives the text back.
pub proof fn lemma_trim_padded(lead: Seq<char>, x: Seq<char>, trail: Seq<char>)
    requires
        all_white_space(lead),
        all_white_space(trail),
        unpadded(x),
    ensures
        trim_spec(lead + x + trail) == x,
{
    assert(lead + x + trail =~= lead + (x + trail));
    lemma_trim_start_white_prefix(lead, x + trail);
    if x.len() == 0 {
        assert(x + trail =~= trail);
        lemma_trim_start_white_prefix(trail, Seq::<char>::empty());
        assert(trail + Seq::<char>::empty() =~= trail);
    } else {
        assert((x + trail)[0] == x[0]);
        assert(trim_start_spec(x + trail) == x + trail);
        lemma_trim_end_white_suffix(x, trail);
    }
}

proof fn lemma_trim_start_unpadded_front(s: Seq<char>)
    ensures
        trim_start_spec(s).len() == 0 || !is_white_space(trim_start_spec(s)[0]),
    decreases s.len(),
{
    if s.len() > 0 && is_white_space(s[0]) {
        lemma_trim_start_unpadded_front(s.drop_first());
    }
}

proof fn lemma_trim_end_prefix(s: Seq<char>)
    ensures
        trim_end_spec(s).len() <= s.len(),
        trim_end_spec(s) == s.take(trim_end_spec(s).len() as int),
        trim_end_spec(s).len() == 0 || !is_white_space(trim_end_spec(s).last()),
    decreases s.len(),
{
    if s.len() > 0 && is_white_space(s.last()) {
        lemma_trim_end_prefix(s.drop_last());
        let e = trim_end_spec(s.drop_last());
        assert(s.drop_last().take(e.len() as int) =~= s.take(e.len() as int));
    } else {
        assert(s.take(s.len() as int) =~= s);
    }
}

/// A trimmed text is unpadded.
pub proof fn lemma_trim_is_unpadded(s: Seq<char>)
    ensures
        unpadded(trim_spec(s)),
{
    let t = trim_start_spec(s);
    lemma_trim_start_unpadded_front(s);
    lemma_trim_end_prefix(t);
    let e = trim_end_spec(t);
    if e.len() > 0 {
        assert(e[0] == t.take(e.len() as int)[0]);
    }
}

/// ASCII lower-casing two joined texts lower-cases each.
pub proof fn lemma_ascii_lower_concat(a: Seq<char>, b: Seq<char>)
    ensures
        ascii_lower_spec(a + b) == ascii_lower_spec(a) + ascii_lower_spec(b),
{
    assert(ascii_lower_spec(a + b) =~= ascii_lower_spec(a) + ascii_lower_spec(b));
}

/// Texts equal once ASCII lower-cased have white space at the same
/// places.
proof fn lemma_same_lower_same_white_space(a: Seq<char>, b: Seq<char>, i: int)
    requires
        ascii_lower_spec(a) == ascii_lower_spec(b),
        0 <= i < a.len(),
    ensures
        a.len() == b.len(),
        is_white_space(a[i]) == is_white_space(b[i]),
{
    assert(ascii_lower_spec(a).len() == a.len() && ascii_lower_spec(b).len() == b.len());
    assert(ascii_lower_spec(a)[i] == ascii_lower_char(a[i]));
    assert(ascii_lower_spec(b)[i] == ascii_lower_char(b[i]));
    lemma_ascii_lower_keeps_white_space(a[i]);
    lemma_ascii_lower_keeps_white_space(b[i]);
}

/// A name written with other ASCII letter case (`variant`), with `.exe`
/// in any letter case or no extension appended (`ext`), and with white
/// space around (`lead`, `trail`), has as its trimmed ASCII lower-case
/// form the lower-cased name followed by `.exe` if an extension was
/// appended.
pub proof fn lemma_variant_normal_form(
    name: Seq<char>,
    lead: Seq<char>,
    variant: Seq<char>,
    ext: Seq<char>,
    trail: Seq<char>,
)
    requires
        unpadded(name),
        ascii_lower_spec(variant) == ascii_lower_spec(name),
        ext.len() == 0 || ascii_lower_spec(ext) == exe_suffix(),
        all_white_space(lead),
        all_white_space(trail),
    ensures
        ascii_lower_spec(trim_spec(lead + variant + ext + trail)) == ascii_lower_spec(name) + (if ext.len()
            == 0 {
            Seq::<char>::empty()
        } else {
            exe_suffix()
        }),
        ascii_lower_spec(trim_spec(name)) == ascii_lower_spec(name),
{
    let x = variant + ext;
    assert(ascii_lower_spec(variant).len() == variant.len());
    assert(ascii_lower_spec(name).len() == name.len());
    if ext.len() > 0 {
        assert(ascii_lower_spec(ext).len() == ext.len());
        assert(ascii_lower_char(ext[0]) == '.');
        assert(ascii_lower_char(ext.last()) == ascii_lower_spec(ext)[3]);
        lemma_ascii_lower_keeps_white_space(ext[0]);
        lemma_ascii_lower_keeps_white_space(ext.last());
    }
    if variant.len() > 0 {
        lemma_same_lower_same_white_space(variant, name, 0);
        lemma_same_lower_same_white_space(variant, name, variant.len() - 1);
    }
    if x.len() > 0 {
        if variant.len() > 0 {
            assert(x[0] == variant[0]);
        } else {
            assert(x[0] == ext[0]);
        }
        if ext.len() > 0 {
            assert(x.last() == ext.last());
        } else {
            assert(x.last() == variant.last());
        }
    }
    assert(unpadded(x));
    assert(lead + variant + ext + trail =~= lead + x + trail);
    lemma_trim_padded(lead, x, trail);
    lemma_ascii_lower_concat(variant, ext);
    if ext.len() == 0 {
        assert(ascii_lower_spec(ext) =~= Seq::<char>::empty());
    }
    assert(ascii_lower_spec(name) + Seq::<char>::empty() =~= ascii_lower_spec(name));
    lemma_trim_padded(Seq::<char>::empty(), name, Seq::<char>::empty());
    assert(Seq::<char>::empty() + name + Seq::<char>::empty() =~= name);
}

/// Trimming and ASCII lower-casing twice is trimming and lower-casing
/// once.
pub proof fn lemma_ascii_normal_form_idempotent(s: Seq<char>)
    ensures
        ascii_lower_spec(trim_spec(ascii_lower_spec(trim_spec(s)))) == ascii_lower_spec(trim_spec(s)),
{
    let t = trim_spec(s);
    let y = ascii_lower_spec(t);
    lemma_trim_is_unpadded(s);
    assert(y.len() == t.len());
    if t.len() > 0 {
        lemma_ascii_lower_keeps_white_space(t[0]);
        lemma_ascii_lower_keeps_white_space(t.last());
        assert(y[0] == ascii_lower_char(t[0]));
        assert(y.last() == ascii_lower_char(t.last()));
    }
    lemma_trim_padded(Seq::<char>::empty(), y, Seq::<char>::empty());
    assert(Seq::<char>::empty() + y + Seq::<char>::empty() =~= y);
    assert(ascii_lower_spec(y) =~= y);
}

/// ASCII lower-casing keeps ASCII text ASCII.
pub proof fn lemma_ascii_lower_keeps_ascii(s: Seq<char>)
    requires
        is_ascii_text(s),
    ensures
        is_ascii_text(ascii_lower_spec(s)),
{
    assert forall|i: int| 0 <= i < ascii_lower_spec(s).len() implies (#[trigger] ascii_lower_spec(s)[i] as u32) < 128 by {
        assert(ascii_lower_spec(s)[i] == ascii_lower_char(s[i]));
        assert((s[i] as u32) < 128);
    }
}


// ---------------------------------------------------------------------
// What the helpers mean, in terms of scalar values
// ---------------------------------------------------------------------

/// Lexicographic order compares at the first difference: where two
/// texts agree before position `i` and differ at `i`, the one whose
/// character there is the smaller (by scalar value) comes first.
pub proof fn lemma_lex_lt_first_difference(a: Seq<char>, b: Seq<char>, i: int)
    requires
        0 <= i < a.len(),
        i < b.len(),
        a.take(i) == b.take(i),
        a[i] != b[i],
    ensures
        lex_lt(a, b) == (a[i] < b[i]),
        lex_lt(b, a) == (b[i] < a[i]),
    decreases i,
{
    if i > 0 {
        assert(a[0] == a.take(i)[0] && b[0] == b.take(i)[0]);
        assert(a.drop_first().take(i - 1) =~= a.take(i).drop_first());
        assert(b.drop_first().take(i - 1) =~= b.take(i).drop_first());
        lemma_lex_lt_first_difference(a.drop_first(), b.drop_first(), i - 1);
        assert(a.drop_first()[i - 1] == a[i] && b.drop_first()[i - 1] == b[i]);
    }
}

/// Two one-character texts are ordered by the scalar values of their
/// characters.
pub proof fn lemma_lex_lt_single_chars(x: char, y: char)
    ensures
        lex_lt(seq![x], seq![y]) == ((x as u32) < (y as u32)),
{
    let a = seq![x];
    let b = seq![y];
    assert(a[0] == x && b[0] == y);
    assert(a.drop_first().len() == 0 && b.drop_first().len() == 0);
    assert(!lex_lt(a.drop_first(), b.drop_first()));
    assert((x < y) == ((x as u32) < (y as u32)));
}

/// A proper prefix comes before the longer text.
pub proof fn lemma_lex_lt_proper_prefix(a: Seq<char>, b: Seq<char>)
    requires
        a.len() < b.len(),
        b.take(a.len() as int) == a,
    ensures
        lex_lt(a, b),
        !lex_lt(b, a),
    decreases a.len(),
{
    if a.len() > 0 {
        assert(a[0] == b.take(a.len() as int)[0]);
        assert(b.drop_first().take(a.drop_first().len() as int) =~= a.drop_first());
        lemma_lex_lt_proper_prefix(a.drop_first(), b.drop_first());
    }
}

/// ASCII lower-casing moves `A`..`Z` up by 32 scalar values, onto
/// `a`..`z`, and keeps every other character.
pub proof fn lemma_ascii_lower_char_values(c: char)
    ensures
        'A' <= c && c <= 'Z' ==> ascii_lower_char(c) as u32 == c as u32 + 32 && 'a' <= ascii_lower_char(
            c,
        ) && ascii_lower_char(c) <= 'z',
        !('A' <= c && c <= 'Z') ==> ascii_lower_char(c) == c,
{
}

/// Whether `a` and `b` are the same text up to ASCII letter case: equal
/// length, and at each place the same character or an upper-case ASCII
/// letter against its lower-case letter, 32 scalar values apart.
pub open spec fn same_up_to_ascii_case(a: Seq<char>, b: Seq<char>) -> bool {
    &&& a.len() == b.len()
    &&& forall|i: int|
        0 <= i < a.len() ==> {
            ||| a[i] == b[i]
            ||| ('A' <= a[i] && a[i] <= 'Z' && b[i] as u32 == a[i] as u32 + 32)
            ||| ('A' <= b[i] && b[i] <= 'Z' && a[i] as u32 == b[i] as u32 + 32)
        }
}

/// Texts that are the same up to ASCII letter case have the same ASCII
/// lower-case form.
pub proof fn lemma_case_variants_lower_alike(a: Seq<char>, b: Seq<char>)
    requires
        same_up_to_ascii_case(a, b),
    ensures
        ascii_lower_spec(a) == ascii_lower_spec(b),
{
    assert forall|i: int| 0 <= i < a.len() implies #[trigger] ascii_lower_spec(a)[i] == ascii_lower_spec(b)[i] by {
        lemma_ascii_lower_char_values(a[i]);
        lemma_ascii_lower_char_values(b[i]);
        let x = ascii_lower_char(a[i]);
        let y = ascii_lower_char(b[i]);
        assert(x as u32 == y as u32);
        assert((x as u32) as char == x && (y as u32) as char == y);
    }
    assert(ascii_lower_spec(a) =~= ascii_lower_spec(b));
}

/// A code unit outside the surrogate range stands for the character of
/// that scalar value.
pub proof fn lemma_single_unit_char_value(u: u16)
    requires
        !is_high_surrogate(u),
        !is_low_surrogate(u),
    ensures
        single_unit_char(u) as u32 == u as u32,
{
}

/// A surrogate pair stands for the character with scalar value
/// `0x10000 + (high - 0xD800) * 0x400 + (low - 0xDC00)`.
pub proof fn lemma_surrogate_pair_char_value(high: u16, low: u16)
    requires
        is_high_surrogate(high),
        is_low_surrogate(low),
    ensures
        surrogate_pair_char(high, low) as u32 == 0x10000 + (high - 0xD800) * 0x400 + (low - 0xDC00),
        (surrogate_pair_char(high, low) as u32) >= 0x10000,
{
    assert(0x10000 + (high - 0xD800) * 0x400 + (low - 0xDC00) <= 0x10FFFF) by (nonlinear_arith)
        requires
            0xD800 <= high <= 0xDBFF,
            0xDC00 <= low <= 0xDFFF,
    ;
}

/// Code units without surrogates decode, strictly and with replacement,
/// to the characters with the same scalar values, one for one.
pub proof fn lemma_decode_without_surrogates(units: Seq<u16>)
    requires
        forall|i: int| 0 <= i < units.len() ==> !is_high_surrogate(#[trigger] units[i]) && !is_low_surrogate(units[i]),
    ensures
        utf16_decode(units) is Some,
        utf16_decode(units).unwrap().len() == units.len(),
        utf16_decode_lossy(units) == utf16_decode(units).unwrap(),
        forall|i: int| 0 <= i < units.len() ==> (#[trigger] utf16_decode(units).unwrap()[i] as u32) == units[i] as u32,
    decreases units.len(),
{
    if units.len() > 0 {
        let rest = units.drop_first();
        assert forall|i: int| 0 <= i < rest.len() implies !is_high_surrogate(#[trigger] rest[i]) && !is_low_surrogate(rest[i]) by {
            assert(rest[i] == units[i + 1]);
        }
        lemma_decode_without_surrogates(rest);
        lemma_single_unit_char_value(units[0]);
        let d = utf16_decode(units).unwrap();
        let r = utf16_decode(rest).unwrap();
        assert(d =~= seq![single_unit_char(units[0])] + r);
        assert forall|i: int| 0 <= i < units.len() implies (#[trigger] d[i] as u32) == units[i] as u32 by {
            if i > 0 {
                assert(d[i] == r[i - 1]);
                assert(rest[i - 1] == units[i]);
            }
        }
    }
}


/// Texts of one length, each extended by one character, are ordered by
/// the texts where they differ and by the added characters where they
/// do not.
pub proof fn lemma_lex_lt_push(a: Seq<char>, b: Seq<char>, x: char, y: char)
    requires
        a.len() == b.len(),
    ensures
        lex_lt(a.push(x), b.push(y)) == if a == b {
            x < y
        } else {
            lex_lt(a, b)
        },
    decreases a.len(),
{
    let ax = a.push(x);
    let by = b.push(y);
    if a.len() == 0 {
        assert(a =~= b);
        assert(ax[0] == x && by[0] == y);
        assert(!lex_lt(ax.drop_first(), by.drop_first()));
    } else {
        assert(ax[0] == a[0] && by[0] == b[0]);
        assert(ax.drop_first() =~= a.drop_first().push(x));
        assert(by.drop_first() =~= b.drop_first().push(y));
        lemma_lex_lt_push(a.drop_first(), b.drop_first(), x, y);
        if a[0] == b[0] {
            if a.drop_first() == b.drop_first() {
                assert(a =~= seq![a[0]] + a.drop_first());
                assert(b =~= seq![b[0]] + b.drop_first());
            } else {
                assert(a != b) by {
                    if a == b {
                        assert(a.drop_first() == b.drop_first());
                    }
                }
            }
        }
    }
}

/// A common beginning does not change the order of two texts.
pub proof fn lemma_lex_lt_common_prefix(p: Seq<char>, a: Seq<char>, b: Seq<char>)
    ensures
        lex_lt(p + a, p + b) == lex_lt(a, b),
    decreases p.len(),
{
    if p.len() > 0 {
        assert((p + a)[0] == p[0] && (p + b)[0] == p[0]);
        assert((p + a).drop_first() =~= p.drop_first() + a);
        assert((p + b).drop_first() =~= p.drop_first() + b);
        lemma_lex_lt_common_prefix(p.drop_first(), a, b);
    } else {
        assert(p + a =~= a);
        assert(p + b =~= b);
    }
}

} // verus!
