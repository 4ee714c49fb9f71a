//! Start-with-Windows command lines: quoting the executable, comparing a
//! registered command with the current one, and the single-instance guard.

use vstd::prelude::*;
use vstd::string::{StrSliceExecFns, StringExecFns};

verus! {

/// The characters that `char::is_whitespace` accepts (Unicode White_Space).
pub open spec fn is_whitespace(c: char) -> bool {
    let u = c as u32;
    (0x09 <= u <= 0x0D) || u == 0x20 || u == 0x85 || u == 0xA0 || u == 0x1680 || (0x2000 <= u
        <= 0x200A) || u == 0x2028 || u == 0x2029 || u == 0x202F || u == 0x205F || u == 0x3000
}

/// `s` without its leading whitespace.
pub open spec fn trim_start(s: Seq<char>) -> Seq<char>
    decreases s.len(),
{
    if s.len() > 0 && is_whitespace(s[0]) {
        trim_start(s.drop_first())
    } else {
        s
    }
}

/// `s` without its trailing whitespace.
pub open spec fn trim_end(s: Seq<char>) -> Seq<char>
    decreases s.len(),
{
    if s.len() > 0 && is_whitespace(s.last()) {
        trim_end(s.drop_last())
    } else {
        s
    }
}

/// `s` without leading and trailing whitespace.
pub open spec fn spec_trim(s: Seq<char>) -> Seq<char> {
    trim_end(trim_start(s))
}

/// `c` with an ASCII capital letter made small, as a code point.
pub open spec fn ascii_lower(c: char) -> u32 {
    let u = c as u32;
    if 65 <= u <= 90 {
        (u + 32) as u32
    } else {
        u
    }
}

/// Equal up to the case of ASCII letters.
pub open spec fn eq_ignore_ascii_case(a: Seq<char>, b: Seq<char>) -> bool {
    a.len() == b.len() && forall|i: int| 0 <= i < a.len() ==> #[trigger] ascii_lower(a[i])
        == ascii_lower(b[i])
}

fn char_is_whitespace(c: char) -> (w: bool)
    ensures
        w == is_whitespace(c),
{
    let u = c as u32;
    (0x09 <= u && u <= 0x0D) || u == 0x20 || u == 0x85 || u == 0xA0 || u == 0x1680 || (0x2000 <= u
        && u <= 0x200A) || u == 0x2028 || u == 0x2029 || u == 0x202F || u == 0x205F || u == 0x3000
}

fn char_lower(c: char) -> (l: u32)
    ensures
        l == ascii_lower(c),
{
    let u = c as u32;
    if 65 <= u && u <= 90 {
        u + 32
    } else {
        u
    }
}

proof fn lemma_trim_start_skip(s: Seq<char>, i: int)
    requires
        0 <= i <= s.len(),
        forall|j: int| 0 <= j < i ==> is_whitespace(#[trigger] s[j]),
    ensures
        trim_start(s) == trim_start(s.skip(i)),
    decreases i,
{
    if i > 0 {
        assert(s.skip(1) =~= s.drop_first());
        lemma_trim_start_skip(s.drop_first(), i - 1);
        assert(s.drop_first().skip(i - 1) =~= s.skip(i));
    } else {
        assert(s.skip(0) =~= s);
    }
}

proof fn lemma_trim_end_take(s: Seq<char>, e: int)
    requires
        0 <= e <= s.len(),
        forall|j: int| e <= j < s.len() ==> is_whitespace(#[trigger] s[j]),
    ensures
        trim_end(s) == trim_end(s.take(e)),
    decreases s.len() - e,
{
    if e < s.len() {
        assert(s.drop_last().take(e) =~= s.take(e));
        lemma_trim_end_take(s.drop_last(), e);
    } else {
        assert(s.take(e) =~= s);
    }
}

/// The character positions [start, end) of `s` that remain once leading and
/// trailing whitespace is removed.
fn trimmed_bounds(s: &str) -> (r: (usize, usize))
    ensures
        r.0 <= r.1 <= s@.len(),
        spec_trim(s@) == s@.subrange(r.0 as int, r.1 as int),
{
    let n = s.unicode_len();
    let mut start: usize = 0;
    while start < n
        invariant_except_break
            n == s@.len(),
            start <= n,
            forall|j: int| 0 <= j < start ==> is_whitespace(#[trigger] s@[j]),
        ensures
            n == s@.len(),
            start <= n,
            forall|j: int| 0 <= j < start ==> is_whitespace(#[trigger] s@[j]),
            start < n ==> !is_whitespace(s@[start as int]),
        decreases n - start,
    {
        if !char_is_whitespace(s.get_char(start)) {
            break;
        }
        start = start + 1;
    }
    let mut end: usize = n;
    while end > start
        invariant_except_break
            n == s@.len(),
            start <= end <= n,
            forall|j: int| end <= j < n ==> is_whitespace(#[trigger] s@[j]),
        ensures
            n == s@.len(),
            start <= end <= n,
            forall|j: int| end <= j < n ==> is_whitespace(#[trigger] s@[j]),
            end > start ==> !is_whitespace(s@[end - 1]),
        decreases end - start,
    {
        if !char_is_whitespace(s.get_char(end - 1)) {
            break;
        }
        end = end - 1;
    }
    proof {
        let t = s@.skip(start as int);
        lemma_trim_start_skip(s@, start as int);
        if start < n {
            assert(t[0] == s@[start as int]);
        } else {
            assert(t.len() == 0);
        }
        assert(trim_start(t) == t);
        let e = (end - start) as int;
        assert forall|j: int| e <= j < t.len() implies is_whitespace(#[trigger] t[j]) by {
            assert(t[j] == s@[start + j]);
        }
        lemma_trim_end_take(t, e);
        let u = t.take(e);
        if e > 0 {
            assert(u.last() == s@[end - 1]);
        }
        assert(trim_end(u) == u);
        assert(u =~= s@.subrange(start as int, end as int));
    }
    (start, end)
}

/// Whether the registered start command and the current one name the same
/// program: equal once surrounding whitespace is removed, ignoring the case
/// of ASCII letters.
pub fn commands_match(registered: &str, current: &str) -> (m: bool)
    ensures
        m == eq_ignore_ascii_case(spec_trim(registered@), spec_trim(current@)),
{
    let (a0, a1) = trimmed_bounds(registered);
    let (b0, b1) = trimmed_bounds(current);
    let ghost a = spec_trim(registered@);
    let ghost b = spec_trim(current@);
    if a1 - a0 != b1 - b0 {
        return false;
    }
    let len = a1 - a0;
    let mut i: usize = 0;
    while i < len
        invariant
            a0 <= a1 <= registered@.len(),
            b0 <= b1 <= current@.len(),
            len == a1 - a0,
            len == b1 - b0,
            a == registered@.subrange(a0 as int, a1 as int),
            b == current@.subrange(b0 as int, b1 as int),
            a == spec_trim(registered@),
            b == spec_trim(current@),
            i <= len,
            forall|j: int| 0 <= j < i ==> #[trigger] ascii_lower(a[j]) == ascii_lower(b[j]),
        decreases len - i,
    {
        let ca = registered.get_char(a0 + i);
        let cb = current.get_char(b0 + i);
        assert(ca == a[i as int] && cb == b[i as int]);
        if char_lower(ca) != char_lower(cb) {
            assert(ascii_lower(a[i as int]) != ascii_lower(b[i as int]));
            return false;
        }
        i = i + 1;
    }
    true
}

/// A program path as a start command: the path in double quotes.
pub fn quote_command(path: &str) -> (cmd: String)
    ensures
        cmd@ == seq!['"'] + path@ + seq!['"'],
{
    proof {
        reveal_strlit("\"");
    }
    let mut cmd = String::from_str("\"");
    cmd.append(path);
    cmd.append("\"");
    assert(cmd@ =~= seq!['"'] + path@ + seq!['"']);
    cmd
}

/// The start command kept from a registry value: the value without
/// surrounding whitespace, or none when nothing is left.
pub open spec fn spec_startup_command(value: Option<Seq<char>>) -> Option<Seq<char>> {
    match value {
        Some(v) => if spec_trim(v).len() == 0 {
            None
        } else {
            Some(spec_trim(v))
        },
        None => None,
    }
}

/// The start command held by a registry value that was read (`None` when the
/// value could not be read).
pub fn startup_command_from(value: Option<String>) -> (cmd: Option<String>)
    ensures
        match cmd {
            Some(c) => spec_startup_command(
                match value {
                    Some(v) => Some(v@),
                    None => None,
                },
            ) == Some(c@),
            None => spec_startup_command(
                match value {
                    Some(v) => Some(v@),
                    None => None,
                },
            ) is None,
        },
{
    match value {
        Some(v) => {
            let (start, end) = trimmed_bounds(v.as_str());
            if start == end {
                None
            } else {
                let text = v.as_str().substring_char(start, end);
                Some(String::from_str(text))
            }
        },
        None => None,
    }
}

/// A registered start command is stale when there is one, the current launch
/// command is known, and the two do not match; it is then removed.
pub open spec fn spec_entry_is_stale(registered: Option<Seq<char>>, current: Option<Seq<char>>) -> bool {
    match (registered, current) {
        (Some(r), Some(c)) => !eq_ignore_ascii_case(spec_trim(r), spec_trim(c)),
        _ => false,
    }
}

pub fn startup_entry_is_stale(registered: Option<&str>, current: Option<&str>) -> (stale: bool)
    ensures
        stale == spec_entry_is_stale(
            match registered {
                Some(r) => Some(r@),
                None => None,
            },
            match current {
                Some(c) => Some(c@),
                None => None,
            },
        ),
{
    match (registered, current) {
        (Some(r), Some(c)) => !commands_match(r, c),
        _ => false,
    }
}

/// Matching is reflexive and symmetric.
pub proof fn lemma_commands_match_equivalence(a: Seq<char>, b: Seq<char>)
    ensures
        eq_ignore_ascii_case(spec_trim(a), spec_trim(a)),
        eq_ignore_ascii_case(spec_trim(a), spec_trim(b)) == eq_ignore_ascii_case(
            spec_trim(b),
            spec_trim(a),
        ),
{
}

/// Commands that differ only in the case of ASCII letters match, whatever
/// whitespace surrounds them; a position where the code points differ and
/// neither is an ASCII letter (non-ASCII letters included) makes them differ.
pub proof fn lemma_match_ignores_ascii_case_only(a: Seq<char>, b: Seq<char>, pad: Seq<char>)
    requires
        a.len() == b.len(),
        forall|i: int| 0 <= i < pad.len() ==> #[trigger] pad[i] == ' ',
    ensures
        (forall|i: int|
            0 <= i < a.len() ==> #[trigger] a[i] == b[i] || (65 <= a[i] as u32 <= 90 && b[i] as u32
                == a[i] as u32 + 32) || (65 <= b[i] as u32 <= 90 && a[i] as u32 == b[i] as u32 + 32))
            ==> eq_ignore_ascii_case(a, b),
        (exists|i: int|
            0 <= i < a.len() && a[i] as u32 != b[i] as u32 && !(65 <= a[i] as u32 <= 90 || 97 <= a[i] as u32 <= 122)
                && !(65 <= b[i] as u32 <= 90 || 97 <= b[i] as u32 <= 122)) ==> !eq_ignore_ascii_case(a, b),
        trim_start(pad + a) == trim_start(a),
{
    if exists|i: int|
        0 <= i < a.len() && a[i] as u32 != b[i] as u32 && !(65 <= a[i] as u32 <= 90 || 97 <= a[i] as u32 <= 122)
            && !(65 <= b[i] as u32 <= 90 || 97 <= b[i] as u32 <= 122) {
        let i = choose|i: int|
            0 <= i < a.len() && a[i] as u32 != b[i] as u32 && !(65 <= a[i] as u32 <= 90 || 97 <= a[i] as u32 <= 122)
                && !(65 <= b[i] as u32 <= 90 || 97 <= b[i] as u32 <= 122);
        assert(ascii_lower(a[i]) == a[i] as u32);
        assert(ascii_lower(b[i]) == b[i] as u32);
        assert(ascii_lower(a[i]) != ascii_lower(b[i]));
    }
    lemma_trim_start_pad(pad, a);
}

proof fn lemma_trim_start_pad(pad: Seq<char>, a: Seq<char>)
    requires
        forall|i: int| 0 <= i < pad.len() ==> #[trigger] pad[i] == ' ',
    ensures
        trim_start(pad + a) == trim_start(a),
    decreases pad.len(),
{
    if pad.len() > 0 {
        assert((pad + a)[0] == ' ');
        assert((pad + a).drop_first() =~= pad.drop_first() + a);
        lemma_trim_start_pad(pad.drop_first(), a);
    } else {
        assert(pad + a =~= a);
    }
}

/// A quoted command has no whitespace to trim.
proof fn lemma_trim_quoted(path: Seq<char>)
    ensures
        spec_trim(seq!['"'] + path + seq!['"']) == seq!['"'] + path + seq!['"'],
{
    let q = seq!['"'] + path + seq!['"'];
    assert(q[0] == '"');
    assert(trim_start(q) == q);
    assert(q.last() == '"');
}

/// The command registered for a program, read back from the registry, is
/// not stale while the program is launched from the same path.
pub proof fn lemma_registered_command_not_stale(path: Seq<char>)
    ensures
        ({
            let cmd = seq!['"'] + path + seq!['"'];
            &&& spec_startup_command(Some(cmd)) == Some(cmd)
            &&& !spec_entry_is_stale(spec_startup_command(Some(cmd)), Some(cmd))
        }),
{
    lemma_trim_quoted(path);
}

/// The single-instance guard lives as long as the process; there is nothing
/// to release.
pub fn release_single_instance() {
}

} // verus!
