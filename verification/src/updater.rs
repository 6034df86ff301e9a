//! Release checks and the self-update procedure.
use vstd::prelude::*;

use crate::text::{
    all_digits, chars_of, find, find_spec, is_digit, is_first_occurrence, occurs_at, single, slice_chars,
    string_of,
};

verus! {

/// The version of this editor.
pub open spec fn version_spec() -> Seq<char> {
    "1.6.1"@
}

/// The version of this editor.
pub fn current_version() -> (v: String)
    ensures
        v@ == version_spec(),
{
    String::from_str("1.6.1")
}

// ---------------------------------------------------------------------------
// Version numbers
// ---------------------------------------------------------------------------

/// The pieces of `s` between the separators `c` (what `str::split` gives).
pub open spec fn split_spec(s: Seq<char>, c: char) -> Seq<Seq<char>>
    decreases s.len(),
{
    match find_spec(s, seq![c]) {
        Some(i) => if 0 <= i < s.len() {
            seq![s.take(i)] + split_spec(s.skip(i + 1), c)
        } else {
            seq![s]
        },
        None => seq![s],
    }
}

/// The value of a non-empty string of ASCII digits.
pub open spec fn digits_value(d: Seq<char>) -> nat
    decreases d.len(),
{
    if d.len() == 0 {
        0
    } else {
        digits_value(d.drop_last()) * 10 + ((d.last() as int - '0' as int) as nat)
    }
}

/// `p` without one leading `+`.
pub open spec fn unsigned_digits(p: Seq<char>) -> Seq<char> {
    if p.len() > 0 && p[0] == '+' {
        p.drop_first()
    } else {
        p
    }
}

/// What `str::parse::<u32>` accepts: an optional `+`, then one or more ASCII
/// digits whose value fits in a `u32`.
pub open spec fn parse_u32_spec(p: Seq<char>) -> Option<u32> {
    let d = unsigned_digits(p);
    if d.len() == 0 || !all_digits(d) {
        None
    } else if digits_value(d) > u32::MAX {
        None
    } else {
        Some(digits_value(d) as u32)
    }
}

/// The numbers of a dotted version string, the pieces that are not numbers
/// being skipped.
pub open spec fn numbers_of(pieces: Seq<Seq<char>>) -> Seq<u32>
    decreases pieces.len(),
{
    if pieces.len() == 0 {
        Seq::empty()
    } else {
        numbers_of(pieces.drop_last()) + match parse_u32_spec(pieces.last()) {
            Some(n) => seq![n],
            None => Seq::empty(),
        }
    }
}

/// The numbers of a version string such as `1.6.1`.
pub open spec fn version_numbers(v: Seq<char>) -> Seq<u32> {
    numbers_of(split_spec(v, '.'))
}

/// Lexicographic order on number sequences, as `Vec<u32>` compares them: a
/// proper prefix comes first.
pub open spec fn seq_lt(a: Seq<u32>, b: Seq<u32>) -> bool
    decreases a.len(),
{
    if a.len() == 0 {
        b.len() > 0
    } else if b.len() == 0 {
        false
    } else if a[0] != b[0] {
        a[0] < b[0]
    } else {
        seq_lt(a.drop_first(), b.drop_first())
    }
}

/// The version `remote` is newer than `local`.
pub open spec fn is_newer_spec(remote: Seq<char>, local: Seq<char>) -> bool {
    seq_lt(version_numbers(local), version_numbers(remote))
}

/// The pieces of `s` between the separators `c`.
pub fn split_char(s: &[char], c: char) -> (v: Vec<Vec<char>>)
    ensures
        v@.len() == split_spec(s@, c).len(),
        forall|k: int| 0 <= k < v@.len() ==> (#[trigger] v@[k])@ == split_spec(s@, c)[k],
{
    let n = s.len();
    let sep = single(c);
    let mut out: Vec<Vec<char>> = Vec::new();
    let ghost mut done: Seq<Seq<char>> = Seq::empty();
    let mut start: usize = 0;
    assert(s@.skip(0) =~= s@);
    loop
        invariant
            start <= n == s@.len(),
            sep@ == seq![c],
            split_spec(s@, c) == done + split_spec(s@.skip(start as int), c),
            out@.len() == done.len(),
            forall|k: int| 0 <= k < out@.len() ==> (#[trigger] out@[k])@ == done[k],
        decreases n - start,
    {
        let rest = &s[start..n];
        let ghost r = rest@;
        assert(r =~= s@.skip(start as int));
        match find(rest, sep.as_slice()) {
            Some(i) => {
                assert(occurs_at(r, seq![c], i as int));
                let piece = slice_chars(s, start, start + i);
                proof {
                    assert(s@.subrange(start as int, start + i) =~= r.take(i as int));
                    assert(r.skip(i + 1) =~= s@.skip(start + i + 1));
                    done = done.push(piece@);
                }
                out.push(piece);
                start = start + i + 1;
            },
            None => {
                let piece = slice_chars(s, start, n);
                proof {
                    done = done.push(piece@);
                }
                out.push(piece);
                return out;
            },
        }
    }
}

/// `str::parse::<u32>`.
pub fn parse_u32(p: &[char]) -> (r: Option<u32>)
    ensures
        r == parse_u32_spec(p@),
{
    let n = p.len();
    let start: usize = if n > 0 && p[0] == '+' {
        1
    } else {
        0
    };
    let ghost d = unsigned_digits(p@);
    assert(d =~= p@.skip(start as int));
    if start == n {
        return None;
    }
    let cap: u64 = 0x1_0000_0000;
    let mut acc: u64 = 0;
    let mut i: usize = start;
    assert(d.take(0) =~= Seq::<char>::empty());
    while i < n
        invariant
            start <= i <= n == p@.len(),
            d == p@.skip(start as int),
            d == unsigned_digits(p@),
            cap == u32::MAX + 1,
            forall|k: int| 0 <= k < i - start ==> is_digit(#[trigger] d[k]),
            acc == if digits_value(d.take(i - start)) < cap {
                digits_value(d.take(i - start))
            } else {
                cap as nat
            },
        decreases n - i,
    {
        let ch = p[i];
        if !('0' <= ch && ch <= '9') {
            assert(d[i - start] == p@[i as int]);
            assert(!is_digit(d[i - start]));
            return None;
        }
        let ghost t = d.take(i - start + 1);
        assert(t.drop_last() =~= d.take(i - start));
        assert(t.last() == ch);
        let digit = (ch as u64) - ('0' as u64);
        if acc < cap {
            acc = acc * 10 + digit;
            if acc > cap {
                acc = cap;
            }
        }
        proof {
            let prev = digits_value(d.take(i - start));
            assert(digits_value(t) == prev * 10 + digit);
            if prev >= cap {
                assert(prev * 10 >= prev) by (nonlinear_arith)
                    requires
                        prev >= 0,
                ;
            }
        }
        i += 1;
    }
    assert(d.take(n - start) =~= d);
    if acc < cap {
        Some(acc as u32)
    } else {
        None
    }
}

/// The numbers of a dotted version string.
pub fn version_numbers_exec(v: &str) -> (r: Vec<u32>)
    ensures
        r@ == version_numbers(v@),
{
    let cs = chars_of(v);
    let pieces = split_char(cs.as_slice(), '.');
    let ghost all = split_spec(v@, '.');
    let mut out: Vec<u32> = Vec::new();
    let mut i: usize = 0;
    assert(all.take(0) =~= Seq::<Seq<char>>::empty());
    while i < pieces.len()
        invariant
            i <= pieces@.len() == all.len(),
            forall|k: int| 0 <= k < pieces@.len() ==> (#[trigger] pieces@[k])@ == all[k],
            out@ == numbers_of(all.take(i as int)),
        decreases pieces.len() - i,
    {
        assert(all.take(i + 1).drop_last() =~= all.take(i as int));
        assert(all.take(i + 1).last() == pieces@[i as int]@);
        match parse_u32(pieces[i].as_slice()) {
            Some(x) => {
                out.push(x);
            },
            None => {},
        }
        assert(out@ =~= numbers_of(all.take(i + 1)));
        i += 1;
    }
    assert(all.take(all.len() as int) =~= all);
    out
}

/// `a` comes before `b` in lexicographic order.
pub fn seq_lt_exec(a: &[u32], b: &[u32]) -> (r: bool)
    ensures
        r == seq_lt(a@, b@),
{
    let mut i: usize = 0;
    assert(a@.skip(0) =~= a@);
    assert(b@.skip(0) =~= b@);
    while i < a.len() && i < b.len()
        invariant
            i <= a@.len(),
            i <= b@.len(),
            seq_lt(a@, b@) == seq_lt(a@.skip(i as int), b@.skip(i as int)),
        decreases a.len() - i,
    {
        assert(a@.skip(i as int)[0] == a@[i as int]);
        assert(b@.skip(i as int)[0] == b@[i as int]);
        if a[i] != b[i] {
            return a[i] < b[i];
        }
        assert(a@.skip(i as int).drop_first() =~= a@.skip(i + 1));
        assert(b@.skip(i as int).drop_first() =~= b@.skip(i + 1));
        i += 1;
    }
    i == a.len() && i < b.len()
}

proof fn lemma_seq_lt_irreflexive(a: Seq<u32>)
    ensures
        !seq_lt(a, a),
    decreases a.len(),
{
    if a.len() > 0 {
        lemma_seq_lt_irreflexive(a.drop_first());
    }
}

proof fn lemma_seq_lt_asymmetric(a: Seq<u32>, b: Seq<u32>)
    ensures
        !(seq_lt(a, b) && seq_lt(b, a)),
    decreases a.len(),
{
    if a.len() > 0 && b.len() > 0 && a[0] == b[0] {
        lemma_seq_lt_asymmetric(a.drop_first(), b.drop_first());
    }
}

proof fn lemma_seq_lt_transitive(a: Seq<u32>, b: Seq<u32>, c: Seq<u32>)
    requires
        seq_lt(a, b),
        seq_lt(b, c),
    ensures
        seq_lt(a, c),
    decreases a.len(),
{
    if a.len() > 0 && b.len() > 0 && c.len() > 0 && a[0] == b[0] && b[0] == c[0] {
        lemma_seq_lt_transitive(a.drop_first(), b.drop_first(), c.drop_first());
    }
}

/// No version is newer than itself.
pub proof fn law_is_newer_irreflexive(v: Seq<char>)
    ensures
        !is_newer_spec(v, v),
{
    lemma_seq_lt_irreflexive(version_numbers(v));
}

/// Of two versions, at most one is newer than the other.
pub proof fn law_is_newer_asymmetric(a: Seq<char>, b: Seq<char>)
    ensures
        !(is_newer_spec(a, b) && is_newer_spec(b, a)),
{
    lemma_seq_lt_asymmetric(version_numbers(a), version_numbers(b));
}

/// A version newer than one that is newer than a third is newer than the
/// third.
pub proof fn law_is_newer_transitive(a: Seq<char>, b: Seq<char>, c: Seq<char>)
    requires
        is_newer_spec(a, b),
        is_newer_spec(b, c),
    ensures
        is_newer_spec(a, c),
{
    lemma_seq_lt_transitive(version_numbers(c), version_numbers(b), version_numbers(a));
}

/// Whether the version `remote` is newer than `local`, comparing their
/// dotted numbers in order.
pub fn is_newer(remote: &str, local: &str) -> (b: bool)
    ensures
        b == is_newer_spec(remote@, local@),
{
    let r = version_numbers_exec(remote);
    let l = version_numbers_exec(local);
    seq_lt_exec(l.as_slice(), r.as_slice())
}

// ---------------------------------------------------------------------------
// Releases
// ---------------------------------------------------------------------------

/// A published release: its version and its downloadable assets, each a
/// file name and its download URL.
#[derive(Debug, Clone)]
pub struct Release {
    pub version: String,
    pub assets: Vec<(String, String)>,
}

/// The index of the first asset named `name`.
pub open spec fn first_asset(assets: Seq<(String, String)>, name: Seq<char>) -> Option<int>
    decreases assets.len(),
{
    if assets.len() == 0 {
        None
    } else {
        match first_asset(assets.drop_last(), name) {
            Some(i) => Some(i),
            None => if assets.last().0@ == name {
                Some(assets.len() - 1)
            } else {
                None
            },
        }
    }
}

/// The download URL of the first asset named `name`, if any.
pub open spec fn asset_url_spec(assets: Seq<(String, String)>, name: Seq<char>) -> Option<Seq<char>> {
    match first_asset(assets, name) {
        Some(i) => Some(assets[i].1@),
        None => None,
    }
}

/// The asset whose URL `asset_url` gives is the first one with that name,
/// and it gives none only when no asset has that name.
pub proof fn law_asset_url_first_match(assets: Seq<(String, String)>, name: Seq<char>)
    ensures
        match first_asset(assets, name) {
            Some(i) => 0 <= i < assets.len() && assets[i].0@ == name && forall|j: int|
                0 <= j < i ==> (#[trigger] assets[j]).0@ != name,
            None => forall|j: int| 0 <= j < assets.len() ==> (#[trigger] assets[j]).0@ != name,
        },
    decreases assets.len(),
{
    if assets.len() > 0 {
        law_asset_url_first_match(assets.drop_last(), name);
        assert forall|j: int| 0 <= j < assets.len() - 1 implies assets[j] == assets.drop_last()[j] by {
        }
    }
}

/// A prefix whose first matching asset is at `i` keeps it when extended.
proof fn lemma_first_asset_extend(assets: Seq<(String, String)>, name: Seq<char>, k: int, i: int)
    requires
        0 <= k <= assets.len(),
        first_asset(assets.take(k), name) == Some(i),
    ensures
        first_asset(assets, name) == Some(i),
    decreases assets.len() - k,
{
    if k < assets.len() {
        assert(assets.take(k + 1).drop_last() =~= assets.take(k));
        lemma_first_asset_extend(assets, name, k + 1, i);
    } else {
        assert(assets.take(k) =~= assets);
    }
}

/// The release with `tag` as its version, a leading `v` removed.
pub open spec fn release_version(tag: Seq<char>) -> Seq<char> {
    if tag.len() > 0 && tag[0] == 'v' {
        tag.drop_first()
    } else {
        tag
    }
}

/// The assets of which both the name and the URL are known, in order.
pub open spec fn known_assets(raw: Seq<(Option<String>, Option<String>)>) -> Seq<(Seq<char>, Seq<char>)>
    decreases raw.len(),
{
    if raw.len() == 0 {
        Seq::empty()
    } else {
        known_assets(raw.drop_last()) + match raw.last() {
            (Some(n), Some(u)) => seq![(n@, u@)],
            _ => Seq::empty(),
        }
    }
}

/// The names and URLs of a list of assets.
pub open spec fn asset_views(a: Seq<(String, String)>) -> Seq<(Seq<char>, Seq<char>)> {
    Seq::new(a.len(), |i: int| (a[i].0@, a[i].1@))
}

impl Release {
    /// The download URL of the asset named `name`, if any.
    pub fn asset_url(&self, name: &str) -> (r: Option<String>)
        ensures
            match asset_url_spec(self.assets@, name@) {
                Some(u) => r matches Some(ru) && ru@ == u,
                None => r is None,
            },
    {
        let n = String::from_str(name);
        let mut i: usize = 0;
        assert(self.assets@.take(0) =~= Seq::<(String, String)>::empty());
        while i < self.assets.len()
            invariant
                i <= self.assets@.len(),
                n@ == name@,
                first_asset(self.assets@.take(i as int), name@) is None,
            decreases self.assets.len() - i,
        {
            let entry = &self.assets[i];
            let ghost t = self.assets@.take(i + 1);
            assert(t.drop_last() =~= self.assets@.take(i as int));
            if entry.0 == n {
                proof {
                    lemma_first_asset_extend(self.assets@, name@, i + 1, i as int);
                }
                return Some(entry.1.clone());
            }
            i += 1;
        }
        assert(self.assets@.take(self.assets@.len() as int) =~= self.assets@);
        None
    }
}

/// The release described by a release's tag and its raw assets: the tag
/// without a leading `v` is the version, and the assets whose name and URL
/// are both known are kept.
pub fn release_from_parts(tag: &str, raw: &Vec<(Option<String>, Option<String>)>) -> (r: Release)
    ensures
        r.version@ == release_version(tag@),
        asset_views(r.assets@) == known_assets(raw@),
{
    let cs = chars_of(tag);
    let version = if cs.len() > 0 && cs[0] == 'v' {
        let v = slice_chars(cs.as_slice(), 1, cs.len());
        assert(v@ =~= tag@.drop_first());
        string_of(v.as_slice())
    } else {
        String::from_str(tag)
    };
    let mut assets: Vec<(String, String)> = Vec::new();
    let mut i: usize = 0;
    assert(raw@.take(0) =~= Seq::<(Option<String>, Option<String>)>::empty());
    assert(asset_views(assets@) =~= Seq::<(Seq<char>, Seq<char>)>::empty());
    while i < raw.len()
        invariant
            i <= raw@.len(),
            asset_views(assets@) == known_assets(raw@.take(i as int)),
        decreases raw.len() - i,
    {
        let ghost t = raw@.take(i + 1);
        assert(t.drop_last() =~= raw@.take(i as int));
        assert(t.last() == raw@[i as int]);
        let ghost before = assets@;
        match &raw[i] {
            (Some(n), Some(u)) => {
                assets.push((n.clone(), u.clone()));
                assert(asset_views(assets@) =~= asset_views(before) + seq![(n@, u@)]);
            },
            _ => {
                assert(asset_views(assets@) =~= asset_views(before) + Seq::empty());
            },
        }
        i += 1;
    }
    assert(raw@.take(raw@.len() as int) =~= raw@);
    Release { version, assets }
}

/// The version of a fetched release when it is newer than this editor.
pub open spec fn check_latest_spec(fetched: Option<Release>) -> Option<Seq<char>> {
    match fetched {
        Some(r) => if is_newer_spec(r.version@, version_spec()) {
            Some(r.version@)
        } else {
            None
        },
        None => None,
    }
}

/// Check whether a fetched release is newer than this editor, giving its
/// version if so.
pub fn check_latest(fetched: Option<Release>) -> (r: Option<String>)
    ensures
        match check_latest_spec(fetched) {
            Some(v) => r matches Some(rv) && rv@ == v,
            None => r is None,
        },
{
    match fetched {
        Some(rel) => {
            let local = current_version();
            if is_newer(rel.version.as_str(), local.as_str()) {
                Some(rel.version)
            } else {
                None
            }
        },
        None => None,
    }
}

// ---------------------------------------------------------------------------
// The self-update procedure
// ---------------------------------------------------------------------------

/// Where the self-update procedure stands.
#[derive(Debug, Clone, Copy, PartialEq, Eq, Structural)]
pub enum UpdateState {
    /// Nothing done yet.
    Start,
    /// Moving an update staged by an earlier run into place.
    ApplyingStaged,
    /// Asking for the latest release.
    Checking,
    /// Downloading the new binary.
    Downloading,
    /// Writing the new binary to the staged location.
    Writing,
    /// Making the staged binary executable.
    SettingPermissions,
    /// Moving the downloaded binary into place.
    Applying,
    /// Finished.
    Done,
}

/// What the outside world reports back to the procedure.
#[derive(Debug, Clone)]
pub enum UpdateEvent {
    /// The procedure began: whether the running binary's path is known, and
    /// whether an update staged by an earlier run is waiting.
    Started { exe_known: bool, staged_exists: bool },
    /// The staged update was moved into place, or not.
    StagedApplied { ok: bool },
    /// The latest release, if it could be fetched.
    Checked { release: Option<Release> },
    /// The new binary was downloaded, or not.
    Downloaded { ok: bool },
    /// The new binary was written to the staged location, or not.
    Written { ok: bool },
    /// The staged binary was made executable, or not.
    PermissionsSet { ok: bool },
    /// The downloaded binary was moved into place, or not.
    Applied { ok: bool },
}

/// What the procedure asks the outside world to do next.
#[derive(Debug, Clone)]
pub enum UpdateAction {
    /// Move the staged update into place.
    ApplyStaged,
    /// Remove the staged file and restart the editor; the procedure is over
    /// and the caller should exit.
    RemoveStagedAndRestart,
    /// Remove the staged file, then fetch the latest release.
    RemoveStagedAndCheck,
    /// Fetch the latest release.
    Check,
    /// Download the binary of release `version` from `url`.
    Download { version: String, url: String },
    /// The release has no binary for this platform; stop.
    NoAsset,
    /// Write the downloaded binary to the staged location.
    WriteStaged,
    /// Make the staged binary executable.
    SetPermissions,
    /// Remove the staged file and stop without restarting.
    RemoveStagedAndStop,
    /// Move the downloaded binary into place.
    Apply,
    /// Stop; `restarted` tells whether the editor was restarted.
    Stop { restarted: bool },
}

/// The name of the release asset for this platform.
pub open spec fn asset_name_spec(windows: bool) -> Seq<char> {
    if windows {
        "moumy-editor.exe"@
    } else {
        "moumy-editor"@
    }
}

/// One step of the self-update procedure: from `s`, on `e`, the procedure
/// goes to `s2` and asks for `a`. An event that does not answer the pending
/// request ends the procedure without a restart.
pub open spec fn update_step_spec(
    s: UpdateState,
    e: UpdateEvent,
    windows: bool,
    unix: bool,
    s2: UpdateState,
    a: UpdateAction,
) -> bool {
    match (s, e) {
        (UpdateState::Start, UpdateEvent::Started { exe_known, staged_exists }) => if !exe_known {
            s2 == UpdateState::Done && a == UpdateAction::Stop { restarted: false }
        } else if staged_exists {
            s2 == UpdateState::ApplyingStaged && a == UpdateAction::ApplyStaged
        } else {
            s2 == UpdateState::Checking && a == UpdateAction::Check
        },
        (UpdateState::ApplyingStaged, UpdateEvent::StagedApplied { ok }) => if ok {
            s2 == UpdateState::Done && a == UpdateAction::RemoveStagedAndRestart
        } else {
            s2 == UpdateState::Checking && a == UpdateAction::RemoveStagedAndCheck
        },
        (UpdateState::Checking, UpdateEvent::Checked { release }) => match release {
            None => s2 == UpdateState::Done && a == UpdateAction::Stop { restarted: false },
            Some(rel) => if !is_newer_spec(rel.version@, version_spec()) {
                s2 == UpdateState::Done && a == UpdateAction::Stop { restarted: false }
            } else {
                match asset_url_spec(rel.assets@, asset_name_spec(windows)) {
                    None => s2 == UpdateState::Done && a == UpdateAction::NoAsset,
                    Some(u) => s2 == UpdateState::Downloading && (a matches UpdateAction::Download {
                        version,
                        url,
                    } && version@ == rel.version@ && url@ == u),
                }
            },
        },
        (UpdateState::Downloading, UpdateEvent::Downloaded { ok }) => if ok {
            s2 == UpdateState::Writing && a == UpdateAction::WriteStaged
        } else {
            s2 == UpdateState::Done && a == UpdateAction::Stop { restarted: false }
        },
        (UpdateState::Writing, UpdateEvent::Written { ok }) => if !ok {
            s2 == UpdateState::Done && a == UpdateAction::Stop { restarted: false }
        } else if unix {
            s2 == UpdateState::SettingPermissions && a == UpdateAction::SetPermissions
        } else {
            s2 == UpdateState::Applying && a == UpdateAction::Apply
        },
        (UpdateState::SettingPermissions, UpdateEvent::PermissionsSet { ok }) => if ok {
            s2 == UpdateState::Applying && a == UpdateAction::Apply
        } else {
            s2 == UpdateState::Done && a == UpdateAction::RemoveStagedAndStop
        },
        (UpdateState::Applying, UpdateEvent::Applied { ok }) => if ok {
            s2 == UpdateState::Done && a == UpdateAction::RemoveStagedAndRestart
        } else {
            s2 == UpdateState::Done && a == UpdateAction::Stop { restarted: false }
        },
        _ => s2 == UpdateState::Done && a == UpdateAction::Stop { restarted: false },
    }
}

/// One step of the self-update procedure. `windows` and `unix` tell the
/// platform the editor runs on.
pub fn update_step(s: UpdateState, e: UpdateEvent, windows: bool, unix: bool) -> (r: (
    UpdateState,
    UpdateAction,
))
    ensures
        update_step_spec(s, e, windows, unix, r.0, r.1),
{
    let stop = (UpdateState::Done, UpdateAction::Stop { restarted: false });
    match (s, e) {
        (UpdateState::Start, UpdateEvent::Started { exe_known, staged_exists }) => {
            if !exe_known {
                stop
            } else if staged_exists {
                (UpdateState::ApplyingStaged, UpdateAction::ApplyStaged)
            } else {
                (UpdateState::Checking, UpdateAction::Check)
            }
        },
        (UpdateState::ApplyingStaged, UpdateEvent::StagedApplied { ok }) => {
            if ok {
                (UpdateState::Done, UpdateAction::RemoveStagedAndRestart)
            } else {
                (UpdateState::Checking, UpdateAction::RemoveStagedAndCheck)
            }
        },
        (UpdateState::Checking, UpdateEvent::Checked { release }) => match release {
            None => stop,
            Some(rel) => {
                let local = current_version();
                if !is_newer(rel.version.as_str(), local.as_str()) {
                    stop
                } else {
                    let name = if windows {
                        String::from_str("moumy-editor.exe")
                    } else {
                        String::from_str("moumy-editor")
                    };
                    match rel.asset_url(name.as_str()) {
                        None => (UpdateState::Done, UpdateAction::NoAsset),
                        Some(url) => (
                            UpdateState::Downloading,
                            UpdateAction::Download { version: rel.version, url },
                        ),
                    }
                }
            },
        },
        (UpdateState::Downloading, UpdateEvent::Downloaded { ok }) => {
            if ok {
                (UpdateState::Writing, UpdateAction::WriteStaged)
            } else {
                stop
            }
        },
        (UpdateState::Writing, UpdateEvent::Written { ok }) => {
            if !ok {
                stop
            } else if unix {
                (UpdateState::SettingPermissions, UpdateAction::SetPermissions)
            } else {
                (UpdateState::Applying, UpdateAction::Apply)
            }
        },
        (UpdateState::SettingPermissions, UpdateEvent::PermissionsSet { ok }) => {
            if ok {
                (UpdateState::Applying, UpdateAction::Apply)
            } else {
                (UpdateState::Done, UpdateAction::RemoveStagedAndStop)
            }
        },
        (UpdateState::Applying, UpdateEvent::Applied { ok }) => {
            if ok {
                (UpdateState::Done, UpdateAction::RemoveStagedAndRestart)
            } else {
                stop
            }
        },
        _ => stop,
    }
}

/// The editor restarts only right after an update was moved into place: a
/// step that asks for a restart answers a successful application, of a
/// staged update or of a downloaded one.
pub proof fn law_restart_only_after_apply(
    s: UpdateState,
    e: UpdateEvent,
    windows: bool,
    unix: bool,
    s2: UpdateState,
    a: UpdateAction,
)
    requires
        update_step_spec(s, e, windows, unix, s2, a),
        a is RemoveStagedAndRestart,
    ensures
        (s == UpdateState::ApplyingStaged && e == UpdateEvent::StagedApplied { ok: true }) || (s
            == UpdateState::Applying && e == UpdateEvent::Applied { ok: true }),
        s2 == UpdateState::Done,
{
}

/// Nothing is downloaded unless the release is newer than this editor, and
/// what is downloaded is that release's asset for this platform.
pub proof fn law_download_only_newer(
    s: UpdateState,
    e: UpdateEvent,
    windows: bool,
    unix: bool,
    s2: UpdateState,
    a: UpdateAction,
)
    requires
        update_step_spec(s, e, windows, unix, s2, a),
        a is Download,
    ensures
        s == UpdateState::Checking,
        e matches UpdateEvent::Checked { release: Some(rel) } && is_newer_spec(
            rel.version@,
            version_spec(),
        ) && a->Download_version@ == rel.version@ && Some(a->Download_url@) == asset_url_spec(
            rel.assets@,
            asset_name_spec(windows),
        ),
{
}

} // verus!
