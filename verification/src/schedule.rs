//! Morning delivery: the system scheduler runs the app with `--refresh-only`
//! once a day. The library writes the job's definition (a Task Scheduler
//! task on Windows, a LaunchAgent on macOS), reads the time back out of it,
//! and turns the scheduler's replies into text; running the scheduler is the
//! caller's.

use vstd::prelude::*;

use crate::pattern::{captures, group, spec_captures};
use crate::text::{
    spec_utf8_lossy, utf8_lossy, utf8_of, utf8_text, chars_of, decimal, decimal_u64, owned, replace_seq, replace_vec, str_concat, str_trim, string_of, trim,
};

verus! {

pub const LABEL: &'static str = "com.mydailynewspaper.refresh";

/// The task's name in Task Scheduler (Windows).
pub const TASK_NAME: &'static str = "My Daily Newspaper - Morning Delivery";

pub const REFRESH_FLAG: &'static str = "--refresh-only";

pub const UNSUPPORTED: &'static str = "Morning delivery uses the system scheduler, which this build only knows how to drive on Windows and macOS.";

pub struct ScheduleInfo {
    /// False where there is no scheduler we know how to drive.
    pub supported: bool,
    pub enabled: bool,
    pub hour: u32,
    pub minute: u32,
}

/// Delivery as the scheduler has it: off at 6:00 unless a job was found
/// (`time`), and never on where there is no scheduler.
pub fn status(supported: bool, time: Option<(u32, u32)>) -> (r: ScheduleInfo)
    ensures
        r.supported == supported,
        r.enabled == (supported && time is Some),
        (r.hour, r.minute) == (match time {
            Some(t) if supported => t,
            _ => (6u32, 0u32),
        }),
        (time matches Some((h, m)) ==> h < 24 && m < 60) ==> r.hour < 24 && r.minute < 60,
{
    let mut info = ScheduleInfo { supported, enabled: false, hour: 6, minute: 0 };
    if !supported {
        return info;
    }
    match time {
        Some((h, m)) => {
            info.enabled = true;
            info.hour = h;
            info.minute = m;
        },
        None => {},
    }
    info
}

/// The time to schedule: the hour at most 23, the minute at most 59.
pub fn clamp_time(hour: u32, minute: u32) -> (r: (u32, u32))
    ensures
        r.0 == if hour < 23 { hour } else { 23 },
        r.1 == if minute < 59 { minute } else { 59 },
{
    (if hour < 23 { hour } else { 23 }, if minute < 59 { minute } else { 59 })
}

// ------------------------------------------------------------- the scheduler's text

/// What `String::from_utf16_lossy` makes of UTF-16 code units.
pub uninterp spec fn spec_utf16_lossy(units: Seq<u16>) -> Seq<char>;


/// `String::from_utf16_lossy`: UTF-16, bad units replaced. Claims that the
/// result is the one `spec_utf16_lossy` names, and, as the function's
/// documentation has it, that units which are the UTF-16 encoding of a text
/// decode to that text.
#[verifier::external_body]
fn utf16_lossy(units: &[u16]) -> (r: String)
    ensures
        r@ == spec_utf16_lossy(units@),
        forall|t: Seq<char>| #[trigger] utf16_text(t) == units@ ==> r@ == t,
{
    String::from_utf16_lossy(units)
}

/// The scheduler prints as UTF-16 (with a byte-order mark, or ASCII text
/// with every second byte zero) or in the console code page.
pub open spec fn looks_utf16(b: Seq<u8>) -> bool {
    b.len() >= 4 && ((b[0] == 0xFF && b[1] == 0xFE) || (b[1] == 0 && b[3] == 0))
}

/// Little-endian 16-bit units of the bytes, an odd last byte dropped.
pub open spec fn le_units(b: Seq<u8>) -> Seq<u16> {
    Seq::new(b.len() / 2, |k: int| (b[2 * k] + 256 * b[2 * k + 1]) as u16)
}

pub open spec fn spec_decode_console(b: Seq<u8>) -> Seq<char> {
    if looks_utf16(b) {
        spec_utf16_lossy(le_units(b))
    } else {
        spec_utf8_lossy(b)
    }
}

/// The scheduler's output as text, in whichever encoding it came.
pub fn decode_console(bytes: &[u8]) -> (r: String)
    ensures
        r@ == spec_decode_console(bytes@),
        forall|t: Seq<char>|
            t.len() > 0 && bytes@ == seq![0xFFu8, 0xFEu8] + le_bytes(#[trigger] utf16_text(t)) ==> r@ == seq![
                '\u{FEFF}',
            ] + t,
        forall|t: Seq<char>| !t.contains('\0') && bytes@ == #[trigger] utf8_text(t) ==> r@ == t,
        forall|t: Seq<char>|
            t.len() >= 2 && is_ascii(t) && bytes@ == le_bytes(#[trigger] utf16_text(t)) ==> r@ == t,
{
    let utf16 = bytes.len() >= 4 && ((bytes[0] == 0xFF && bytes[1] == 0xFE) || (bytes[1] == 0 && bytes[3] == 0));
    if utf16 {
        let mut units: Vec<u16> = Vec::new();
        let total = bytes.len();
        let n = total / 2;
        assert(n + n <= total) by (nonlinear_arith)
            requires
                n == total / 2,
        ;
        let mut k: usize = 0;
        while k < n
            invariant
                k <= n,
                n == bytes@.len() / 2,
                total == bytes@.len(),
                n + n <= total,
                units@.len() == k,
                forall|j: int| 0 <= j < k ==> units@[j] == le_units(bytes@)[j],
            decreases n - k,
        {
            let at = k + k;
            let lo = bytes[at] as u16;
            let hi = bytes[at + 1] as u16;
            units.push(lo + 256 * hi);
            k = k + 1;
        }
        assert(units@ =~= le_units(bytes@));
        let r = utf16_lossy(units.as_slice());
        assert forall|t: Seq<char>|
            t.len() > 0 && bytes@ == seq![0xFFu8, 0xFEu8] + le_bytes(#[trigger] utf16_text(t)) implies r@ == seq![
                '\u{FEFF}',
            ] + t by {
            lemma_bom_text_units(t);
            assert(utf16_text(seq!['\u{FEFF}'] + t) == units@);
        }
        assert forall|t: Seq<char>| !t.contains('\0') && bytes@ == #[trigger] utf8_text(t) implies false by {
            lemma_utf8_bytes(t);
            assert(bytes@[0] != 0xFF && bytes@[1] != 0);
        }
        assert forall|t: Seq<char>|
            t.len() >= 2 && is_ascii(t) && bytes@ == le_bytes(#[trigger] utf16_text(t)) implies r@ == t by {
            lemma_le_units_of_bytes(utf16_text(t));
        }
        r
    } else {
        assert forall|t: Seq<char>|
            t.len() > 0 && bytes@ == seq![0xFFu8, 0xFEu8] + le_bytes(#[trigger] utf16_text(t)) implies false by {
            lemma_utf16_text_len(t);
            lemma_le_bytes_shape(utf16_text(t));
        }
        assert forall|t: Seq<char>|
            t.len() >= 2 && is_ascii(t) && bytes@ == le_bytes(#[trigger] utf16_text(t)) implies false by {
            let u = utf16_text(t);
            lemma_utf16_ascii(t);
            lemma_le_bytes_shape(u);
            assert(u[0] < 0x80 && u[1] < 0x80);
            assert(bytes@[1] == (u[0] / 256) as u8);
            assert(bytes@[3] == (u[1] / 256) as u8);
        }
        let r = utf8_lossy(bytes);
        r
    }
}

/// Every character is ASCII.
pub open spec fn is_ascii(t: Seq<char>) -> bool {
    forall|k: int| 0 <= k < t.len() ==> (#[trigger] t[k] as u32) < 0x80
}

/// ASCII in UTF-16: one unit a character, its code.
proof fn lemma_utf16_ascii(t: Seq<char>)
    requires
        is_ascii(t),
    ensures
        utf16_text(t).len() == t.len(),
        forall|k: int| 0 <= k < t.len() ==> #[trigger] utf16_text(t)[k] == t[k] as u32,
    decreases t.len(),
{
    if t.len() > 0 {
        let p = t.drop_last();
        assert(is_ascii(p)) by {
            assert forall|k: int| 0 <= k < p.len() implies (#[trigger] p[k] as u32) < 0x80 by {
                assert(p[k] == t[k]);
            }
        }
        lemma_utf16_ascii(p);
        let c = t.last();
        assert((t[t.len() - 1] as u32) < 0x80);
        assert(utf16_of(c) =~= seq![(c as u32) as u16]);
        assert forall|k: int| 0 <= k < t.len() implies #[trigger] utf16_text(t)[k] == t[k] as u32 by {
            if k < t.len() - 1 {
                assert(utf16_text(t)[k] == utf16_text(p)[k]);
                assert(p[k] == t[k]);
            }
        }
    }
}

/// The UTF-8 of a text with no NUL holds no zero byte, and never 0xFF.
proof fn lemma_utf8_bytes(t: Seq<char>)
    requires
        !t.contains('\0'),
    ensures
        forall|k: int| 0 <= k < utf8_text(t).len() ==> #[trigger] utf8_text(t)[k] != 0 && utf8_text(t)[k] != 0xFF,
    decreases t.len(),
{
    if t.len() > 0 {
        let p = t.drop_last();
        assert(!p.contains('\0')) by {
            if p.contains('\0') {
                let k = choose|k: int| 0 <= k < p.len() && p[k] == '\0';
                assert(t[k] == '\0');
            }
        }
        lemma_utf8_bytes(p);
        let c = t.last();
        assert(t[t.len() - 1] == c);
        assert(c != '\0');
        let n = c as u32;
        vstd::utf8::char_is_scalar(c);
        vstd::utf8::char_u32_cast(c, n);
        assert(n <= 0x10FFFF);
        assert(n != 0) by {
            if n == 0 {
                assert(c == (0u32 as char));
                assert('\0' == (0u32 as char));
            }
        }
        let e = utf8_of(c);
        assert forall|j: int| 0 <= j < e.len() implies #[trigger] e[j] != 0 && e[j] != 0xFF by {
            if n < 0x80 {
                assert(1 <= n < 0x80);
                assert(e[0] == n as u8);
            } else if n < 0x800 {
                assert(0xC0 + n / 64 < 0xE0);
                assert(0x80 + n % 64 < 0xC0);
            } else if n < 0x10000 {
                assert(0xE0 + n / 4096 < 0xF0);
                assert(0x80 + (n / 64) % 64 < 0xC0);
                assert(0x80 + n % 64 < 0xC0);
            } else {
                assert(n / 262144 <= 4);
                assert(0x80 + (n / 4096) % 64 < 0xC0);
                assert(0x80 + (n / 64) % 64 < 0xC0);
                assert(0x80 + n % 64 < 0xC0);
            }
        }
        let b = utf8_text(t);
        assert(b =~= utf8_text(p) + e);
        assert forall|k: int| 0 <= k < b.len() implies #[trigger] b[k] != 0 && b[k] != 0xFF by {
            if k < utf8_text(p).len() {
                assert(b[k] == utf8_text(p)[k]);
            } else {
                assert(b[k] == e[k - utf8_text(p).len()]);
            }
        }
    }
}

proof fn lemma_utf16_text_len(t: Seq<char>)
    ensures
        utf16_text(t).len() >= t.len(),
    decreases t.len(),
{
    if t.len() > 0 {
        lemma_utf16_text_len(t.drop_last());
    }
}

proof fn lemma_utf16_text_append(a: Seq<char>, b: Seq<char>)
    ensures
        utf16_text(a + b) == utf16_text(a) + utf16_text(b),
    decreases b.len(),
{
    if b.len() == 0 {
        assert(a + b =~= a);
        assert(utf16_text(a) + utf16_text(b) =~= utf16_text(a));
    } else {
        lemma_utf16_text_append(a, b.drop_last());
        assert((a + b).drop_last() =~= a + b.drop_last());
        assert((a + b).last() == b.last());
        assert(utf16_text(a + b) =~= utf16_text(a) + utf16_text(b));
    }
}

/// The bytes of units: two for each, low byte first.
proof fn lemma_le_bytes_shape(u: Seq<u16>)
    ensures
        le_bytes(u).len() == 2 * u.len(),
        forall|k: int|
            0 <= k < u.len() ==> le_bytes(u)[2 * k] == (u[k] % 256) as u8 && le_bytes(u)[2 * k + 1] == (u[k]
                / 256) as u8,
    decreases u.len(),
{
    if u.len() > 0 {
        lemma_le_bytes_shape(u.drop_last());
        let b = le_bytes(u);
        let p = le_bytes(u.drop_last());
        assert(b =~= p + seq![(u.last() % 256) as u8, (u.last() / 256) as u8]);
        assert forall|k: int| 0 <= k < u.len() implies b[2 * k] == (u[k] % 256) as u8 && b[2 * k + 1] == (u[k]
            / 256) as u8 by {
            if k < u.len() - 1 {
                assert(u.drop_last()[k] == u[k]);
                assert(b[2 * k] == p[2 * k]);
                assert(b[2 * k + 1] == p[2 * k + 1]);
            }
        }
    }
}

/// Reading back little-endian bytes gives the units that were written.
proof fn lemma_le_units_of_bytes(u: Seq<u16>)
    ensures
        le_units(le_bytes(u)) == u,
{
    lemma_le_bytes_shape(u);
    let b = le_bytes(u);
    assert forall|k: int| 0 <= k < u.len() implies #[trigger] le_units(b)[k] == u[k] by {
        let x = u[k];
        assert(b[2 * k] == (x % 256) as u8);
        assert(b[2 * k + 1] == (x / 256) as u8);
        assert((x % 256) + 256 * (x / 256) == x) by (nonlinear_arith);
    }
    assert(le_units(b) =~= u);
}

/// A task file of a text that is not empty: its units are the byte-order
/// mark's, then the text's.
proof fn lemma_bom_text_units(t: Seq<char>)
    requires
        t.len() > 0,
    ensures
        looks_utf16(seq![0xFFu8, 0xFEu8] + le_bytes(utf16_text(t))),
        le_units(seq![0xFFu8, 0xFEu8] + le_bytes(utf16_text(t))) == utf16_text(seq!['\u{FEFF}'] + t),
{
    let bom: Seq<u16> = seq![0xFEFFu16];
    let u = utf16_text(t);
    lemma_utf16_text_len(t);
    lemma_le_bytes_shape(u);
    assert(le_bytes(bom) =~= seq![0xFFu8, 0xFEu8]) by {
        reveal_with_fuel(le_bytes, 2);
        assert(bom.drop_last() =~= Seq::<u16>::empty());
    }
    lemma_le_bytes_append(bom, u);
    lemma_le_units_of_bytes(bom + u);
    assert(utf16_text(seq!['\u{FEFF}']) =~= bom) by {
        let one = seq!['\u{FEFF}'];
        assert(one.drop_last() =~= Seq::<char>::empty());
        assert(one.last() == '\u{FEFF}');
        assert(('\u{FEFF}' as u32) == 0xFEFF);
        assert(utf16_of('\u{FEFF}') =~= bom);
        reveal_with_fuel(utf16_text, 2);
        assert(utf16_text(one) == utf16_text(one.drop_last()) + utf16_of(one.last()));
    }
    lemma_utf16_text_append(seq!['\u{FEFF}'], t);
}

/// The code units of a character in UTF-16.
pub open spec fn utf16_of(c: char) -> Seq<u16> {
    let n = c as u32;
    if n < 0x10000 {
        seq![n as u16]
    } else {
        let m = (n - 0x10000) as int;
        seq![(0xD800 + m / 1024) as u16, (0xDC00 + m % 1024) as u16]
    }
}

pub open spec fn le_bytes(units: Seq<u16>) -> Seq<u8>
    decreases units.len(),
{
    if units.len() == 0 {
        Seq::empty()
    } else {
        le_bytes(units.drop_last()) + seq![(units.last() % 256) as u8, (units.last() / 256) as u8]
    }
}

pub open spec fn utf16_text(s: Seq<char>) -> Seq<u16>
    decreases s.len(),
{
    if s.len() == 0 {
        Seq::empty()
    } else {
        utf16_text(s.drop_last()) + utf16_of(s.last())
    }
}

proof fn lemma_le_bytes_append(a: Seq<u16>, b: Seq<u16>)
    ensures
        le_bytes(a + b) == le_bytes(a) + le_bytes(b),
    decreases b.len(),
{
    if b.len() == 0 {
        assert(a + b =~= a);
        assert(le_bytes(a) + le_bytes(b) =~= le_bytes(a));
    } else {
        lemma_le_bytes_append(a, b.drop_last());
        assert((a + b).drop_last() =~= a + b.drop_last());
        assert((a + b).last() == b.last());
        assert(le_bytes(a + b) =~= le_bytes(a) + le_bytes(b));
    }
}

/// A task definition as the scheduler wants the file: UTF-16, little
/// endian, after a byte-order mark.
pub fn task_file_bytes(xml: &str) -> (r: Vec<u8>)
    ensures
        r@ == seq![0xFFu8, 0xFEu8] + le_bytes(utf16_text(xml@)),
{
    let cs = chars_of(xml);
    let mut out: Vec<u8> = Vec::new();
    out.push(0xFF);
    out.push(0xFE);
    let mut k: usize = 0;
    assert(cs@.take(0) =~= Seq::<char>::empty());
    assert(out@ =~= seq![0xFFu8, 0xFEu8] + le_bytes(utf16_text(cs@.take(0))));
    while k < cs.len()
        invariant
            k <= cs.len(),
            cs@ == xml@,
            out@ == seq![0xFFu8, 0xFEu8] + le_bytes(utf16_text(cs@.take(k as int))),
        decreases cs.len() - k,
    {
        assert(cs@.take(k + 1).drop_last() =~= cs@.take(k as int));
        assert(cs@.take(k + 1).last() == cs@[k as int]);
        let ghost before = out@;
        let n = cs[k] as u32;
        let ghost units = utf16_of(cs@[k as int]);
        proof {
            lemma_le_bytes_append(utf16_text(cs@.take(k as int)), units);
        }
        if n < 0x10000 {
            let u = n as u16;
            out.push((u % 256) as u8);
            out.push((u / 256) as u8);
            assert(le_bytes(units) =~= seq![(u % 256) as u8, (u / 256) as u8]) by {
                assert(units =~= seq![u]);
                reveal_with_fuel(le_bytes, 2);
                assert(units.drop_last() =~= Seq::<u16>::empty());
            }
        } else {
            let m = n - 0x10000;
            let hi = (0xD800 + m / 1024) as u16;
            let lo = (0xDC00 + m % 1024) as u16;
            out.push((hi % 256) as u8);
            out.push((hi / 256) as u8);
            out.push((lo % 256) as u8);
            out.push((lo / 256) as u8);
            assert(le_bytes(units) =~= seq![(hi % 256) as u8, (hi / 256) as u8, (lo % 256) as u8, (lo / 256) as u8]) by {
                assert(units =~= seq![hi, lo]);
                reveal_with_fuel(le_bytes, 3);
                assert(units.drop_last() =~= seq![hi]);
                assert(units.drop_last().drop_last() =~= Seq::<u16>::empty());
            }
        }
        assert(out@ =~= seq![0xFFu8, 0xFEu8] + le_bytes(utf16_text(cs@.take(k + 1))));
        k = k + 1;
    }
    assert(cs@.take(k as int) =~= cs@);
    out
}

/// The error when Windows turns the task down: its error output and its
/// output, trimmed, after each other.
pub fn windows_register_error(stderr_text: &str, stdout_text: &str) -> (r: String)
    ensures
        r@ == "Windows wouldn't register the schedule: "@ + trim(trim(stderr_text@) + " "@ + trim(stdout_text@)),
{
    let a = str_concat(str_trim(stderr_text).as_str(), " ");
    let b = str_concat(a.as_str(), str_trim(stdout_text).as_str());
    str_concat("Windows wouldn't register the schedule: ", str_trim(b.as_str()).as_str())
}

/// The error when macOS turns the job down.
pub fn macos_register_error(stderr_text: &str) -> (r: String)
    ensures
        r@ == "macOS wouldn't register the schedule: "@ + trim(stderr_text@),
{
    str_concat("macOS wouldn't register the schedule: ", str_trim(stderr_text).as_str())
}

/// The user id as `id -u` printed it: trimmed, and only when it is digits.
pub open spec fn spec_uid(out: Seq<char>) -> Option<Seq<char>> {
    let u = trim(out);
    if u.len() > 0 && forall|k: int| 0 <= k < u.len() ==> '0' <= #[trigger] u[k] <= '9' {
        Some(u)
    } else {
        None
    }
}

pub fn uid_from(out: &str) -> (r: Result<String, String>)
    ensures
        match spec_uid(out@) {
            Some(u) => r matches Ok(x) && x@ == u,
            None => r matches Err(m) && m@ == "Couldn't work out your user id."@,
        },
{
    let u = str_trim(out);
    let cs = chars_of(u.as_str());
    let mut ok = cs.len() > 0;
    let mut k: usize = 0;
    while k < cs.len() && ok
        invariant
            k <= cs.len(),
            cs@ == u@,
            ok == (cs@.len() > 0 && forall|j: int| 0 <= j < k ==> '0' <= #[trigger] cs@[j] <= '9'),
        decreases cs.len() - k,
    {
        if !('0' <= cs[k] && cs[k] <= '9') {
            ok = false;
        }
        k = k + 1;
    }
    if ok {
        Ok(u)
    } else {
        Err(owned("Couldn't work out your user id."))
    }
}

/// launchd's domain for the user: "gui/<uid>".
pub fn launch_domain(uid: &str) -> (r: String)
    ensures
        r@ == "gui/"@ + uid@,
{
    str_concat("gui/", uid)
}

/// The job's name in launchd's domain: "gui/<uid>/com.mydailynewspaper.refresh".
pub fn launch_service(uid: &str) -> (r: String)
    ensures
        r@ == "gui/"@ + uid@ + "/"@ + LABEL@,
{
    let d = launch_domain(uid);
    let a = str_concat(d.as_str(), "/");
    str_concat(a.as_str(), LABEL)
}

// ------------------------------------------------------------ definitions

/// Text as XML character data: `&`, `<`, `>` and `"` escaped.
pub open spec fn spec_xml_escape(s: Seq<char>) -> Seq<char> {
    replace_seq(
        replace_seq(replace_seq(replace_seq(s, "&"@, "&amp;"@), "<"@, "&lt;"@), ">"@, "&gt;"@),
        "\""@,
        "&quot;"@,
    )
}

pub fn xml_escape(s: &str) -> (r: String)
    ensures
        r@ == spec_xml_escape(s@),
{
    let v = chars_of(s);
    proof {
        reveal_strlit("&");
        reveal_strlit("<");
        reveal_strlit(">");
        reveal_strlit("\"");
    }
    let a = replace_vec(v.as_slice(), chars_of("&").as_slice(), chars_of("&amp;").as_slice());
    let b = replace_vec(a.as_slice(), chars_of("<").as_slice(), chars_of("&lt;").as_slice());
    let c = replace_vec(b.as_slice(), chars_of(">").as_slice(), chars_of("&gt;").as_slice());
    let d = replace_vec(c.as_slice(), chars_of("\"").as_slice(), chars_of("&quot;").as_slice());
    string_of(d.as_slice())
}

/// `{:02}`: at least two digits.
pub open spec fn two_digits(n: nat) -> Seq<char> {
    if n < 10 {
        "0"@ + decimal(n)
    } else {
        decimal(n)
    }
}

fn two_digits_exec(n: u32) -> (r: String)
    ensures
        r@ == two_digits(n as nat),
{
    if n < 10 {
        str_concat("0", decimal_u64(n as u64).as_str())
    } else {
        decimal_u64(n as u64)
    }
}

pub const TASK_PIECES: [&'static str; 5] = [
    "<?xml version=\"1.0\" encoding=\"UTF-16\"?>\n<Task version=\"1.2\" xmlns=\"http://schemas.microsoft.com/windows/2004/02/mit/task\">\n  <RegistrationInfo>\n    <Description>Researches and lays out today's edition of My Daily Newspaper so it is ready when you open the app.</Description>\n  </RegistrationInfo>\n  <Triggers>\n    <CalendarTrigger>\n      <StartBoundary>2026-01-01T",
    ":",
    ":00</StartBoundary>\n      <Enabled>true</Enabled>\n      <ScheduleByDay>\n        <DaysInterval>1</DaysInterval>\n      </ScheduleByDay>\n    </CalendarTrigger>\n  </Triggers>\n  <Principals>\n    <Principal id=\"Author\">\n      <LogonType>InteractiveToken</LogonType>\n      <RunLevel>LeastPrivilege</RunLevel>\n    </Principal>\n  </Principals>\n  <Settings>\n    <MultipleInstancesPolicy>IgnoreNew</MultipleInstancesPolicy>\n    <DisallowStartIfOnBatteries>false</DisallowStartIfOnBatteries>\n    <StopIfGoingOnBatteries>false</StopIfGoingOnBatteries>\n    <AllowHardTerminate>true</AllowHardTerminate>\n    <StartWhenAvailable>true</StartWhenAvailable>\n    <RunOnlyIfNetworkAvailable>false</RunOnlyIfNetworkAvailable>\n    <AllowStartOnDemand>true</AllowStartOnDemand>\n    <Enabled>true</Enabled>\n    <Hidden>false</Hidden>\n    <RunOnlyIfIdle>false</RunOnlyIfIdle>\n    <WakeToRun>false</WakeToRun>\n    <ExecutionTimeLimit>PT30M</ExecutionTimeLimit>\n    <Priority>7</Priority>\n  </Settings>\n  <Actions Context=\"Author\">\n    <Exec>\n      <Command>",
    "</Command>\n      <Arguments>",
    "</Arguments>\n    </Exec>\n  </Actions>\n</Task>\n",
];

pub const PLIST_PIECES: [&'static str; 8] = [
    "<?xml version=\"1.0\" encoding=\"UTF-8\"?>\n<!DOCTYPE plist PUBLIC \"-//Apple//DTD PLIST 1.0//EN\" \"http://www.apple.com/DTDs/PropertyList-1.0.dtd\">\n<plist version=\"1.0\">\n<dict>\n  <key>Label</key>\n  <string>",
    "</string>\n  <key>ProgramArguments</key>\n  <array>\n    <string>",
    "</string>\n    <string>",
    "</string>\n  </array>\n  <key>StartCalendarInterval</key>\n  <dict>\n    <key>Hour</key>\n    <integer>",
    "</integer>\n    <key>Minute</key>\n    <integer>",
    "</integer>\n  </dict>\n  <key>RunAtLoad</key>\n  <false/>\n  <key>StandardOutPath</key>\n  <string>",
    "</string>\n  <key>StandardErrorPath</key>\n  <string>",
    "</string>\n</dict>\n</plist>\n",
];

/// The Task Scheduler definition: every day at `hour:minute`, run as soon
/// as possible after a missed start, on battery too, as the signed-in user
/// with no admin rights, for at most 30 minutes.
pub open spec fn spec_task_xml(exe: Seq<char>, hour: nat, minute: nat) -> Seq<char> {
    TASK_PIECES@[0]@ + two_digits(hour) + TASK_PIECES@[1]@ + two_digits(minute) + TASK_PIECES@[2]@
        + spec_xml_escape(exe) + TASK_PIECES@[3]@ + REFRESH_FLAG@ + TASK_PIECES@[4]@
}

pub fn task_xml(exe: &str, hour: u32, minute: u32) -> (r: String)
    ensures
        r@ == spec_task_xml(exe@, hour as nat, minute as nat),
{
    let mut out = owned(TASK_PIECES[0]);
    out.append(two_digits_exec(hour).as_str());
    out.append(TASK_PIECES[1]);
    out.append(two_digits_exec(minute).as_str());
    out.append(TASK_PIECES[2]);
    out.append(xml_escape(exe).as_str());
    out.append(TASK_PIECES[3]);
    out.append(REFRESH_FLAG);
    out.append(TASK_PIECES[4]);
    out
}

/// The LaunchAgent: run the app with `--refresh-only` every day at
/// `hour:minute`, not at load, its output to `log`.
pub open spec fn spec_plist(exe: Seq<char>, log: Seq<char>, hour: nat, minute: nat) -> Seq<char> {
    PLIST_PIECES@[0]@ + LABEL@ + PLIST_PIECES@[1]@ + spec_xml_escape(exe) + PLIST_PIECES@[2]@ + REFRESH_FLAG@
        + PLIST_PIECES@[3]@ + decimal(hour) + PLIST_PIECES@[4]@ + decimal(minute) + PLIST_PIECES@[5]@
        + spec_xml_escape(log) + PLIST_PIECES@[6]@ + spec_xml_escape(log) + PLIST_PIECES@[7]@
}

pub fn plist(exe: &str, log: &str, hour: u32, minute: u32) -> (r: String)
    ensures
        r@ == spec_plist(exe@, log@, hour as nat, minute as nat),
{
    let log_text = xml_escape(log);
    let mut out = owned(PLIST_PIECES[0]);
    out.append(LABEL);
    out.append(PLIST_PIECES[1]);
    out.append(xml_escape(exe).as_str());
    out.append(PLIST_PIECES[2]);
    out.append(REFRESH_FLAG);
    out.append(PLIST_PIECES[3]);
    out.append(decimal_u64(hour as u64).as_str());
    out.append(PLIST_PIECES[4]);
    out.append(decimal_u64(minute as u64).as_str());
    out.append(PLIST_PIECES[5]);
    out.append(log_text.as_str());
    out.append(PLIST_PIECES[6]);
    out.append(log_text.as_str());
    out.append(PLIST_PIECES[7]);
    out
}

// ------------------------------------------------------------ reading back

/// `str::parse::<u32>`: an optional `+`, then one or more ASCII digits whose
/// value fits in a `u32`.
pub open spec fn digits_value(d: Seq<char>) -> nat
    decreases d.len(),
{
    if d.len() == 0 {
        0
    } else {
        digits_value(d.drop_last()) * 10 + ((d.last() as u32) - 48) as nat
    }
}

pub open spec fn all_digits(d: Seq<char>) -> bool {
    forall|k: int| 0 <= k < d.len() ==> '0' <= #[trigger] d[k] <= '9'
}

pub open spec fn spec_parse_u32(s: Seq<char>) -> Option<u32> {
    let d = if s.len() > 0 && s[0] == '+' {
        s.drop_first()
    } else {
        s
    };
    if d.len() > 0 && all_digits(d) && digits_value(d) <= u32::MAX {
        Some(digits_value(d) as u32)
    } else {
        None
    }
}

proof fn lemma_digits_value_grows(d: Seq<char>, k: int)
    requires
        0 <= k <= d.len(),
        all_digits(d),
    ensures
        digits_value(d.take(k)) <= digits_value(d),
    decreases d.len() - k,
{
    if k < d.len() {
        lemma_digits_value_grows(d, k + 1);
        assert(d.take(k + 1).drop_last() =~= d.take(k));
        assert(d.take(k + 1).last() == d[k]);
    } else {
        assert(d.take(k) =~= d);
    }
}

#[verifier::spinoff_prover]
pub fn parse_u32(s: &str) -> (r: Option<u32>)
    ensures
        r == spec_parse_u32(s@),
{
    let cs = chars_of(s);
    let start: usize = if cs.len() > 0 && cs[0] == '+' {
        1
    } else {
        0
    };
    let ghost d = if s@.len() > 0 && s@[0] == '+' {
        s@.drop_first()
    } else {
        s@
    };
    assert(d =~= cs@.skip(start as int));
    if start >= cs.len() {
        return None;
    }
    let mut value: u64 = 0;
    let mut k: usize = start;
    assert(d.take(0) =~= Seq::<char>::empty());
    while k < cs.len()
        invariant
            start <= k <= cs.len(),
            start < cs.len(),
            cs@ == s@,
            d == cs@.skip(start as int),
            d == (if s@.len() > 0 && s@[0] == '+' {
                s@.drop_first()
            } else {
                s@
            }),
            all_digits(d.take(k - start)),
            value == digits_value(d.take(k - start)),
            value <= u32::MAX,
        decreases cs.len() - k,
    {
        let c = cs[k];
        assert(d.take(k - start + 1).drop_last() =~= d.take(k - start));
        assert(d.take(k - start + 1).last() == c);
        if !('0' <= c && c <= '9') {
            assert(!all_digits(d)) by {
                assert(d[k - start] == c);
            }
            return None;
        }
        let next = value * 10 + ((c as u32) - 48) as u64;
        if next > u32::MAX as u64 {
            assert(all_digits(d.take(k - start + 1)));
            proof {
                if all_digits(d) {
                    lemma_digits_value_grows(d, k - start + 1);
                }
            }
            return None;
        }
        value = next;
        k = k + 1;
    }
    assert(d.take(k - start) =~= d);
    Some(value as u32)
}

pub const TASK_TIME_PATTERN: &'static str = "<StartBoundary>\\s*\\d{4}-\\d{2}-\\d{2}T(\\d{2}):(\\d{2})";

pub const HOUR_PATTERN: &'static str = "<key>Hour</key>\\s*<integer>(\\d{1,2})</integer>";

pub const MINUTE_PATTERN: &'static str = "<key>Minute</key>\\s*<integer>(\\d{1,2})</integer>";

/// A time of day, when it is one.
pub open spec fn valid_time(h: Option<u32>, m: Option<u32>) -> Option<(u32, u32)> {
    match (h, m) {
        (Some(h), Some(m)) => if h < 24 && m < 60 {
            Some((h, m))
        } else {
            None
        },
        _ => None,
    }
}

pub open spec fn parsed_group(caps: Option<Seq<Option<Seq<char>>>>, i: int) -> Option<u32> {
    match group(caps, i) {
        Some(t) => spec_parse_u32(t),
        None => None,
    }
}

/// The start time of a task definition: `<StartBoundary>` with a date and
/// the hour and minute after the `T`.
pub open spec fn spec_parse_task_time(text: Seq<char>) -> Option<(u32, u32)> {
    let caps = spec_captures(TASK_TIME_PATTERN@, text);
    valid_time(parsed_group(caps, 1), parsed_group(caps, 2))
}

fn group_at(caps: &Option<Vec<Option<String>>>, i: usize) -> (r: Option<u32>)
    ensures
        r == parsed_group(caps.deep_view(), i as int),
{
    match caps {
        Some(g) => {
            if i < g.len() {
                assert(g.deep_view()[i as int] == g@[i as int].deep_view());
                match &g[i] {
                    Some(t) => parse_u32(t.as_str()),
                    None => None,
                }
            } else {
                None
            }
        },
        None => None,
    }
}

pub fn parse_task_time(task_xml: &str) -> (r: Option<(u32, u32)>)
    ensures
        r == spec_parse_task_time(task_xml@),
        r matches Some((h, m)) ==> h < 24 && m < 60,
{
    let caps = captures(TASK_TIME_PATTERN, task_xml);
    let h = group_at(&caps, 1);
    let m = group_at(&caps, 2);
    match (h, m) {
        (Some(h), Some(m)) => if h < 24 && m < 60 {
            Some((h, m))
        } else {
            None
        },
        _ => None,
    }
}

/// The time in a LaunchAgent: the hour (required) and the minute (0 when
/// missing or unreadable).
pub open spec fn spec_parse_time(text: Seq<char>) -> Option<(u32, u32)> {
    let m = match parsed_group(spec_captures(MINUTE_PATTERN@, text), 1) {
        Some(m) => m,
        None => 0,
    };
    valid_time(parsed_group(spec_captures(HOUR_PATTERN@, text), 1), Some(m))
}

pub fn parse_time(plist_text: &str) -> (r: Option<(u32, u32)>)
    ensures
        r == spec_parse_time(plist_text@),
        r matches Some((h, m)) ==> h < 24 && m < 60,
{
    let h = group_at(&captures(HOUR_PATTERN, plist_text), 1);
    let m = match group_at(&captures(MINUTE_PATTERN, plist_text), 1) {
        Some(m) => m,
        None => 0,
    };
    match h {
        Some(h) => if h < 24 && m < 60 {
            Some((h, m))
        } else {
            None
        },
        None => None,
    }
}

} // verus!
