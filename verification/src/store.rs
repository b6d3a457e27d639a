//! What the library decides about the files in the app data folder: the
//! interests list as saved (tidied, old handles mended), whose paper it is,
//! which editions are on disk, and when the refresh lock is still held. The
//! reading and writing is the caller's.

use vstd::prelude::*;

use crate::model::{interest_views, Interest, InterestView, InterestsFile, Profile, Settings};
use crate::text::{
    chars_of, decimal, decimal_u64, lower, lower_vec, owned, seq_eq, str_concat, str_eq, str_lt,
    str_lt_exec, str_trim, string_of, trim,
};

verus! {

// ---------------------------------------------------------------- interests

/// A YouTube handle that early copies shipped but that does not exist, and
/// the one it should be.
pub const BAD_HANDLE: &'static str = "@PowerfulJRE";

pub const GOOD_HANDLE: &'static str = "@joerogan";

/// An interest that still carries the bad handle (any ASCII case, white
/// space around it ignored).
pub open spec fn needs_repair(i: InterestView) -> bool {
    i.kind == "youtube_channel"@ && lower(trim(i.value)) == lower(BAD_HANDLE@)
}

pub open spec fn repaired(i: InterestView) -> InterestView {
    if needs_repair(i) {
        InterestView { value: GOOD_HANDLE@, ..i }
    } else {
        i
    }
}

/// Mends the bad handle in lists saved before it was corrected; anything
/// the owner typed is left alone. True when something changed.
pub fn repair_known_handles(file: &mut InterestsFile) -> (changed: bool)
    ensures
        final(file).version == old(file).version,
        interest_views(final(file).interests@) == interest_views(old(file).interests@).map_values(
            |i: InterestView| repaired(i),
        ),
        changed == exists|k: int|
            0 <= k < old(file).interests@.len() && needs_repair(#[trigger] old(file).interests@[k]@),
{
    let ghost before = interest_views(file.interests@);
    let bad = chars_of(BAD_HANDLE);
    let bad_lower = lower_vec(bad.as_slice());
    let mut changed = false;
    let mut k: usize = 0;
    while k < file.interests.len()
        invariant
            k <= file.interests.len(),
            before.len() == file.interests.len(),
            bad_lower@ == lower(BAD_HANDLE@),
            forall|j: int| 0 <= j < k ==> #[trigger] file.interests@[j]@ == repaired(before[j]),
            forall|j: int| k <= j < before.len() ==> #[trigger] file.interests@[j]@ == before[j],
            changed == exists|j: int| 0 <= j < k && needs_repair(#[trigger] before[j]),
            file.version == old(file).version,
            before == interest_views(old(file).interests@),
        decreases file.interests.len() - k,
    {
        assert(file.interests@[k as int]@ == before[k as int]);
        let v = chars_of(file.interests[k].value.as_str());
        let t = crate::text::trim_vec(v.as_slice());
        let tl = lower_vec(t.as_slice());
        if str_eq(file.interests[k].kind.as_str(), "youtube_channel") && seq_eq(tl.as_slice(), bad_lower.as_slice()) {
            let mut i = file.interests[k].copy();
            i.value = owned(GOOD_HANDLE);
            file.interests.set(k, i);
            changed = true;
        }
        k = k + 1;
    }
    assert(interest_views(file.interests@) =~= before.map_values(|i: InterestView| repaired(i)));
    proof {
        if changed {
            let j = choose|j: int| 0 <= j < k && needs_repair(#[trigger] before[j]);
            assert(before[j] == old(file).interests@[j]@);
        } else {
            assert forall|j: int| 0 <= j < old(file).interests@.len() implies !needs_repair(
                #[trigger] old(file).interests@[j]@,
            ) by {
                assert(before[j] == old(file).interests@[j]@);
            }
        }
    }
    changed
}

// ------------------------------------------------------------------- owner

/// The owner's name: the one in the settings, else the name the app was
/// built for (`built_for`), else nobody.
pub open spec fn spec_owner_name(settings_owner: Seq<char>, built_for: Option<Seq<char>>) -> Seq<char> {
    if trim(settings_owner).len() > 0 {
        trim(settings_owner)
    } else {
        match built_for {
            Some(n) => trim(n),
            None => Seq::empty(),
        }
    }
}

pub open spec fn opt_str_view(s: Option<&str>) -> Option<Seq<char>> {
    match s {
        Some(x) => Some(x@),
        None => None,
    }
}

/// `built_for` is the name given to the app's builder, if any.
pub fn owner_name(settings: &Settings, built_for: Option<&str>) -> (r: String)
    ensures
        r@ == spec_owner_name(settings.owner_name@, opt_str_view(built_for)),
{
    let own = str_trim(settings.owner_name.as_str());
    if !own.as_str().is_empty() {
        return own;
    }
    match built_for {
        Some(n) => str_trim(n),
        None => String::new(),
    }
}

/// "Sam" -> "Sam’s Daily"; nobody -> "My Daily".
pub open spec fn spec_paper_name(owner: Seq<char>) -> Seq<char> {
    if trim(owner).len() == 0 {
        "My Daily"@
    } else {
        trim(owner) + "\u{2019}s Daily"@
    }
}

pub fn paper_name(owner: &str) -> (r: String)
    ensures
        r@ == spec_paper_name(owner@),
{
    let o = str_trim(owner);
    if o.as_str().is_empty() {
        owned("My Daily")
    } else {
        str_concat(o.as_str(), "\u{2019}s Daily")
    }
}

/// Whose paper this is, as the front end needs it.
pub fn profile(settings: &Settings, built_for: Option<&str>) -> (r: Profile)
    ensures
        r.owner_name@ == spec_owner_name(settings.owner_name@, opt_str_view(built_for)),
        r.paper_name@ == spec_paper_name(spec_owner_name(settings.owner_name@, opt_str_view(built_for))),
        r.city@ == trim(settings.city@),
        r.mlb_team_id == settings.mlb_team_id,
        r.onboarded == settings.onboarded,
{
    let owner = owner_name(settings, built_for);
    Profile {
        paper_name: paper_name(owner.as_str()),
        owner_name: owner,
        city: str_trim(settings.city.as_str()),
        mlb_team_id: settings.mlb_team_id,
        onboarded: settings.onboarded,
    }
}

// ---------------------------------------------------------------- editions

/// A character of a date's digits.
pub open spec fn date_digit(c: char) -> bool {
    '0' <= c && c <= '9'
}

/// YYYY-MM-DD: four digits, a dash, two digits, a dash, two digits.
pub open spec fn is_date(d: Seq<char>) -> bool {
    &&& d.len() == 10
    &&& d[4] == '-'
    &&& d[7] == '-'
    &&& forall|k: int| 0 <= k < 10 && k != 4 && k != 7 ==> date_digit(#[trigger] d[k])
}

fn is_date_exec(d: &[char]) -> (r: bool)
    ensures
        r == is_date(d@),
{
    if d.len() != 10 || d[4] != '-' || d[7] != '-' {
        return false;
    }
    let mut k: usize = 0;
    while k < 10
        invariant
            d@.len() == 10,
            k <= 10,
            forall|j: int| 0 <= j < k && j != 4 && j != 7 ==> date_digit(#[trigger] d@[j]),
        decreases 10 - k,
    {
        if k != 4 && k != 7 && !('0' <= d[k] && d[k] <= '9') {
            return false;
        }
        k = k + 1;
    }
    true
}

/// A file name in the editions folder names an edition when it is
/// "YYYY-MM-DD.json"; the date is the part before ".json".
pub open spec fn edition_date_of(name: Seq<char>) -> Option<Seq<char>> {
    if name.len() >= 5 && name.subrange(name.len() - 5, name.len() as int) == ".json"@ {
        let d = name.subrange(0, name.len() - 5);
        if is_date(d) {
            Some(d)
        } else {
            None
        }
    } else {
        None
    }
}

pub open spec fn dates_in(names: Seq<Seq<char>>) -> Seq<Seq<char>>
    decreases names.len(),
{
    if names.len() == 0 {
        Seq::empty()
    } else {
        match edition_date_of(names.last()) {
            Some(d) => dates_in(names.drop_last()).push(d),
            None => dates_in(names.drop_last()),
        }
    }
}

/// Where a text goes in a sorted list: after every text not greater.
pub open spec fn text_pos(sorted: Seq<Seq<char>>, t: Seq<char>) -> nat
    decreases sorted.len(),
{
    if sorted.len() == 0 {
        0
    } else if str_lt(t, sorted[0]) {
        0
    } else {
        1 + text_pos(sorted.drop_first(), t)
    }
}

/// The texts in ascending order.
pub open spec fn sorted_texts(s: Seq<Seq<char>>) -> Seq<Seq<char>>
    decreases s.len(),
{
    if s.len() == 0 {
        Seq::empty()
    } else {
        let r = sorted_texts(s.drop_last());
        r.insert(text_pos(r, s.last()) as int, s.last())
    }
}

fn insert_text(sorted: &mut Vec<String>, t: String)
    ensures
        final(sorted).deep_view() == old(sorted).deep_view().insert(
            text_pos(old(sorted).deep_view(), t@) as int,
            t@,
        ),
{
    let ghost s = sorted.deep_view();
    let mut p: usize = 0;
    assert(s.skip(0) =~= s);
    while p < sorted.len() && !str_lt_exec(t.as_str(), sorted[p].as_str())
        invariant
            p <= sorted.len(),
            s == sorted.deep_view(),
            s.len() == sorted.len(),
            text_pos(s, t@) == p + text_pos(s.skip(p as int), t@),
        decreases sorted.len() - p,
    {
        assert(s.skip(p as int).drop_first() =~= s.skip(p + 1));
        assert(s.skip(p as int)[0] == s[p as int]);
        assert(s[p as int] == sorted@[p as int]@);
        p = p + 1;
    }
    if p < sorted.len() {
        assert(s.skip(p as int)[0] == s[p as int]);
        assert(s[p as int] == sorted@[p as int]@);
    }
    let ghost tv = t@;
    sorted.insert(p, t);
    assert(sorted.deep_view() =~= s.insert(p as int, tv));
}

/// The dates (YYYY-MM-DD) that have an edition, oldest first, from the file
/// names in the editions folder.
pub fn edition_dates(names: &[String]) -> (r: Vec<String>)
    ensures
        r.deep_view() == sorted_texts(dates_in(names.deep_view())),
{
    let ghost ns = names.deep_view();
    let mut out: Vec<String> = Vec::new();
    let ghost mut seen: Seq<Seq<char>> = Seq::empty();
    let mut i: usize = 0;
    assert(ns.take(0) =~= Seq::<Seq<char>>::empty());
    while i < names.len()
        invariant
            i <= names.len(),
            ns == names.deep_view(),
            seen == dates_in(ns.take(i as int)),
            out.deep_view() == sorted_texts(seen),
        decreases names.len() - i,
    {
        assert(ns.take(i + 1).drop_last() =~= ns.take(i as int));
        assert(ns.take(i + 1).last() == ns[i as int]);
        assert(ns[i as int] == names@[i as int]@);
        let n = chars_of(names[i].as_str());
        let len = n.len();
        if len >= 5 {
            let tail = crate::text::slice_vec(n.as_slice(), len - 5, len);
            let json = chars_of(".json");
            if seq_eq(tail.as_slice(), json.as_slice()) {
                let d = crate::text::slice_vec(n.as_slice(), 0, len - 5);
                if is_date_exec(d.as_slice()) {
                    let date = string_of(d.as_slice());
                    let ghost dv = date@;
                    insert_text(&mut out, date);
                    proof {
                        assert(seen.push(dv).drop_last() =~= seen);
                        seen = seen.push(dv);
                    }
                }
            }
        }
        i = i + 1;
    }
    assert(ns.take(i as int) =~= ns);
    out
}

/// The number of the edition filed today: one more than the editions on
/// disk, unless today's is among them (a second run replaces it).
pub open spec fn spec_edition_no(dates: Seq<Seq<char>>, date: Seq<char>) -> u32 {
    if dates.contains(date) {
        dates.len() as u32
    } else {
        (dates.len() + 1) as u32
    }
}

pub fn edition_no(dates: &[String], date: &str) -> (r: u32)
    requires
        dates.len() < usize::MAX,
    ensures
        r == spec_edition_no(dates.deep_view(), date@),
{
    let mut i: usize = 0;
    while i < dates.len()
        invariant
            i <= dates.len(),
            forall|j: int| 0 <= j < i ==> dates.deep_view()[j] != date@,
        decreases dates.len() - i,
    {
        assert(dates.deep_view()[i as int] == dates@[i as int]@);
        if str_eq(dates[i].as_str(), date) {
            return #[verifier::truncate] (dates.len() as u32);
        }
        i = i + 1;
    }
    assert(!dates.deep_view().contains(date@));
    #[verifier::truncate] ((dates.len() + 1) as u32)
}

// -------------------------------------------------------------------- lock

/// A lock file younger than this many seconds belongs to a live refresh;
/// an older one is left over from a crash.
pub const LOCK_STALE_SECS: u64 = 1200;

/// The lock at `path`, held while an edition is being built.
pub struct RefreshLock {
    pub path: String,
}

/// Whether a lock file of this age (`None` when its age cannot be told)
/// still keeps a new refresh out.
pub fn lock_is_held(age_secs: Option<u64>) -> (r: bool)
    ensures
        r == (age_secs matches Some(a) && a < LOCK_STALE_SECS),
{
    match age_secs {
        Some(a) => a < LOCK_STALE_SECS,
        None => false,
    }
}

/// What the lock file says of its holder.
pub fn lock_text(pid: u32) -> (r: String)
    ensures
        r@ == "pid "@ + decimal(pid as nat) + "\n"@,
{
    let p = decimal_u64(pid as u64);
    let a = str_concat("pid ", p.as_str());
    str_concat(a.as_str(), "\n")
}

} // verus!
