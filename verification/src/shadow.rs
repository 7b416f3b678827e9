//! Shadow copies of plugin libraries: the host loads a copy named
//! `<stamp_ms>-<pid>-<seq>-<file name>` under a per-plugin directory, and later
//! sweeps copies that no loaded plugin uses any more.
use vstd::prelude::*;

use crate::text::{
    all_digits, chars_of, dec_digits, digits_value, find_char_in, first_index,
    lemma_dec_digits, lemma_first_index_is, parse_uint_range, parse_uint_spec, push_decimal,
    string_of, trim_range, trim_s, is_ascii_alnum, is_ascii_alnum_exec, is_first_index,
};

verus! {

/// A character that may stand in a shadow directory name as it is.
pub open spec fn safe_id_char(c: char) -> bool {
    is_ascii_alnum(c) || c == '.' || c == '-' || c == '_'
}

pub open spec fn sanitize_char(c: char) -> char {
    if safe_id_char(c) {
        c
    } else {
        '_'
    }
}

/// The directory name used for a plugin id: the trimmed id (or
/// `unknown-plugin` where it is blank) with every character other than ASCII
/// letters, digits, `.`, `-` and `_` replaced by `_`.
pub open spec fn sanitize_spec(id: Seq<char>) -> Seq<char> {
    let t = if trim_s(id).len() == 0 {
        "unknown-plugin"@
    } else {
        trim_s(id)
    };
    t.map_values(|c: char| sanitize_char(c))
}

/// The directory name that shadow copies of a plugin's library go under.
pub fn sanitize_plugin_id(plugin_id: &str) -> (r: String)
    ensures
        r@ == sanitize_spec(plugin_id@),
{
    let v = chars_of(plugin_id);
    let (a, b) = trim_range(&v, 0, v.len());
    assert(v@.subrange(0, v@.len() as int) =~= v@);
    let src: Vec<char> = if a == b {
        chars_of("unknown-plugin")
    } else {
        let mut t: Vec<char> = Vec::new();
        let mut i: usize = a;
        while i < b
            invariant
                a <= i <= b <= v@.len(),
                t@ == v@.subrange(a as int, i as int),
            decreases b - i,
        {
            t.push(v[i]);
            i = i + 1;
            assert(t@ =~= v@.subrange(a as int, i as int));
        }
        t
    };
    let ghost sv = src@;
    let mut out: Vec<char> = Vec::new();
    let mut i: usize = 0;
    while i < src.len()
        invariant
            0 <= i <= src@.len(),
            src@ == sv,
            out@ == sv.take(i as int).map_values(|c: char| sanitize_char(c)),
        decreases src@.len() - i,
    {
        let c = src[i];
        let m = if is_ascii_alnum_exec(c) || c == '.' || c == '-' || c == '_' {
            c
        } else {
            '_'
        };
        out.push(m);
        i = i + 1;
        assert(out@ =~= sv.take(i as int).map_values(|c: char| sanitize_char(c)));
    }
    assert(sv.take(sv.len() as int) =~= sv);
    string_of(&out)
}

/// The stamp, process id and sequence number a shadow copy was named with.
#[derive(Debug, Clone, Copy, PartialEq, Eq, Structural)]
pub struct ShadowFileKey {
    pub stamp_ms: u64,
    pub pid: u32,
    pub seq: u64,
}

/// `s` split at its first `-`: the text before it and the text after it.
pub open spec fn split_dash(s: Seq<char>) -> Option<(Seq<char>, Seq<char>)> {
    let k = first_index(s, '-');
    if k < 0 {
        None
    } else {
        Some((s.take(k), s.skip(k + 1)))
    }
}

/// What `parse_shadow_file_key` reads from a file name: `file_name.splitn(4,
/// '-')` must give four parts, the first three decimal numbers that fit a
/// `u64`, a `u32` and a `u64`, the last not empty.
pub open spec fn shadow_key_spec(name: Seq<char>) -> Option<(nat, nat, nat)> {
    match split_dash(name) {
        None => None,
        Some((p1, r1)) => match split_dash(r1) {
            None => None,
            Some((p2, r2)) => match split_dash(r2) {
                None => None,
                Some((p3, suffix)) => {
                    let stamp = parse_uint_spec(p1, u64::MAX as nat);
                    let pid = parse_uint_spec(p2, u32::MAX as nat);
                    let seq = parse_uint_spec(p3, u64::MAX as nat);
                    if stamp is None || pid is None || seq is None || suffix.len() == 0 {
                        None
                    } else {
                        Some((stamp->0, pid->0, seq->0))
                    }
                },
            },
        },
    }
}

/// The index of the first `-` in `v[lo..]`, with the facts that tie it to
/// `split_dash`.
fn split_dash_at(v: &Vec<char>, lo: usize) -> (r: Option<usize>)
    requires
        lo <= v@.len(),
    ensures
        match r {
            Some(k) => lo <= k < v@.len() && split_dash(v@.subrange(lo as int, v@.len() as int))
                == Some(
                (v@.subrange(lo as int, k as int), v@.subrange(k + 1, v@.len() as int)),
            ),
            None => split_dash(v@.subrange(lo as int, v@.len() as int)) is None,
        },
{
    let ghost s = v@.subrange(lo as int, v@.len() as int);
    match find_char_in(v, lo, v.len(), '-') {
        Some(k) => {
            assert(s.take(k - lo) =~= v@.subrange(lo as int, k as int));
            assert(s.skip(k - lo + 1) =~= v@.subrange(k + 1, v@.len() as int));
            Some(k)
        },
        None => None,
    }
}

/// Reads the key out of a shadow copy's file name.
pub fn parse_shadow_file_key(file_name: &str) -> (r: Option<ShadowFileKey>)
    ensures
        match r {
            Some(k) => shadow_key_spec(file_name@) == Some(
                (k.stamp_ms as nat, k.pid as nat, k.seq as nat),
            ),
            None => shadow_key_spec(file_name@) is None,
        },
{
    let v = chars_of(file_name);
    let n = v.len();
    assert(v@.subrange(0, n as int) =~= v@);
    let k1 = match split_dash_at(&v, 0) {
        Some(k) => k,
        None => return None,
    };
    let k2 = match split_dash_at(&v, k1 + 1) {
        Some(k) => k,
        None => return None,
    };
    let k3 = match split_dash_at(&v, k2 + 1) {
        Some(k) => k,
        None => return None,
    };
    let stamp = parse_uint_range(&v, 0, k1, u64::MAX);
    let pid = parse_uint_range(&v, k1 + 1, k2, u32::MAX as u64);
    let seq = parse_uint_range(&v, k2 + 1, k3, u64::MAX);
    if k3 + 1 == n {
        assert(v@.subrange(k3 + 1, n as int).len() == 0);
        return None;
    }
    match (stamp, pid, seq) {
        (Some(s), Some(p), Some(q)) => Some(ShadowFileKey { stamp_ms: s, pid: p as u32, seq: q }),
        _ => None,
    }
}

/// The spec of a shadow copy's file name.
pub open spec fn shadow_name_spec(stamp_ms: nat, pid: nat, seq: nat, file_name: Seq<char>) -> Seq<
    char,
> {
    dec_digits(stamp_ms) + seq!['-'] + dec_digits(pid) + seq!['-'] + dec_digits(seq) + seq!['-']
        + file_name
}

/// The file name of a shadow copy of the library file `file_name`.
pub fn shadow_file_name(stamp_ms: u64, pid: u32, seq: u64, file_name: &str) -> (r: String)
    ensures
        r@ == shadow_name_spec(stamp_ms as nat, pid as nat, seq as nat, file_name@),
{
    let mut out: Vec<char> = Vec::new();
    push_decimal(&mut out, stamp_ms);
    out.push('-');
    push_decimal(&mut out, pid as u64);
    out.push('-');
    push_decimal(&mut out, seq);
    out.push('-');
    let f = chars_of(file_name);
    let mut i: usize = 0;
    let ghost base = out@;
    while i < f.len()
        invariant
            0 <= i <= f@.len(),
            out@ == base + f@.take(i as int),
        decreases f@.len() - i,
    {
        out.push(f[i]);
        i = i + 1;
        assert(out@ =~= base + f@.take(i as int));
    }
    assert(f@.take(f@.len() as int) =~= f@);
    assert(out@ =~= shadow_name_spec(stamp_ms as nat, pid as nat, seq as nat, file_name@));
    string_of(&out)
}

pub proof fn lemma_split_dash_digits(n: nat, rest: Seq<char>)
    ensures
        split_dash(dec_digits(n) + seq!['-'] + rest) == Some((dec_digits(n), rest)),
{
    lemma_dec_digits(n);
    let d = dec_digits(n);
    let s = d + seq!['-'] + rest;
    assert forall|j: int| 0 <= j < d.len() implies s[j] != '-' by {
        assert(s[j] == d[j]);
        if d[j] == '-' {
            assert(d.contains('-'));
        }
    }
    assert(s[d.len() as int] == '-');
    assert(is_first_index(s, '-', d.len() as int));
    lemma_first_index_is(s, '-', d.len() as int);
    assert(s.take(d.len() as int) =~= d);
    assert(s.skip(d.len() as int + 1) =~= rest);
}

pub proof fn lemma_parse_dec_digits(n: nat, max: nat)
    requires
        n <= max,
    ensures
        parse_uint_spec(dec_digits(n), max) == Some(n),
{
    lemma_dec_digits(n);
}

/// The file names of shadow copies are read back as the key they were made
/// with, whatever the library file name, as long as it is not empty.
pub proof fn law_shadow_name_round_trip(stamp_ms: u64, pid: u32, seq: u64, file_name: Seq<char>)
    requires
        file_name.len() > 0,
    ensures
        shadow_key_spec(shadow_name_spec(stamp_ms as nat, pid as nat, seq as nat, file_name))
            == Some((stamp_ms as nat, pid as nat, seq as nat)),
{
    let tail3 = dec_digits(seq as nat) + seq!['-'] + file_name;
    let tail2 = dec_digits(pid as nat) + seq!['-'] + tail3;
    let whole = dec_digits(stamp_ms as nat) + seq!['-'] + tail2;
    assert(whole =~= shadow_name_spec(stamp_ms as nat, pid as nat, seq as nat, file_name));
    lemma_split_dash_digits(stamp_ms as nat, tail2);
    lemma_split_dash_digits(pid as nat, tail3);
    lemma_split_dash_digits(seq as nat, file_name);
    lemma_parse_dec_digits(stamp_ms as nat, u64::MAX as nat);
    lemma_parse_dec_digits(pid as nat, u32::MAX as nat);
    lemma_parse_dec_digits(seq as nat, u64::MAX as nat);
}

/// What the sweep does with one file of a shadow directory.
#[derive(Debug, Clone, Copy, PartialEq, Eq, Structural)]
pub enum ShadowFileAction {
    /// A loaded plugin uses it.
    SkipActive,
    /// Its name is not one that the host gives shadow copies.
    SkipUnrecognized,
    /// This process made it less than the grace period ago.
    SkipRecentCurrentProcess,
    /// It is stale: remove it.
    Delete,
}

/// Decides what to do with one shadow file. `file_name` is `None` where the
/// name is not valid UTF-8.
pub fn classify_shadow_file(
    protected: bool,
    file_name: Option<&str>,
    current_pid: u32,
    age_nanos: u128,
    grace_nanos: u128,
) -> (a: ShadowFileAction)
    ensures
        protected ==> a == ShadowFileAction::SkipActive,
        !protected ==> match file_name {
            None => a == ShadowFileAction::SkipUnrecognized,
            Some(name) => match shadow_key_spec(name@) {
                None => a == ShadowFileAction::SkipUnrecognized,
                Some(k) => if k.1 == current_pid && age_nanos < grace_nanos {
                    a == ShadowFileAction::SkipRecentCurrentProcess
                } else {
                    a == ShadowFileAction::Delete
                },
            },
        },
{
    if protected {
        return ShadowFileAction::SkipActive;
    }
    let name = match file_name {
        Some(n) => n,
        None => return ShadowFileAction::SkipUnrecognized,
    };
    let key = match parse_shadow_file_key(name) {
        Some(k) => k,
        None => return ShadowFileAction::SkipUnrecognized,
    };
    if key.pid == current_pid && age_nanos < grace_nanos {
        ShadowFileAction::SkipRecentCurrentProcess
    } else {
        ShadowFileAction::Delete
    }
}

/// The tally of one sweep of shadow copies.
#[derive(Debug, Clone, Copy, PartialEq, Eq, Structural)]
pub struct ShadowCleanupReport {
    pub scanned: usize,
    pub deleted: usize,
    pub failed: usize,
    pub skipped_active: usize,
    pub skipped_recent_current_process: usize,
    pub skipped_unrecognized: usize,
}

pub open spec fn sat_inc(x: usize) -> usize {
    if x == usize::MAX {
        x
    } else {
        (x + 1) as usize
    }
}

impl ShadowCleanupReport {
    pub fn new() -> (r: ShadowCleanupReport)
        ensures
            r == (ShadowCleanupReport {
                scanned: 0,
                deleted: 0,
                failed: 0,
                skipped_active: 0,
                skipped_recent_current_process: 0,
                skipped_unrecognized: 0,
            }),
    {
        ShadowCleanupReport {
            scanned: 0,
            deleted: 0,
            failed: 0,
            skipped_active: 0,
            skipped_recent_current_process: 0,
            skipped_unrecognized: 0,
        }
    }

    /// Whether the sweep has removed as many files as it may.
    pub fn limit_reached(&self, max_deletions: usize) -> (r: bool)
        ensures
            r == (self.deleted >= max_deletions),
    {
        self.deleted >= max_deletions
    }

    /// Counts a file that was looked at and the decision taken for it;
    /// `removed` tells, for a deletion, whether the file went away.
    pub fn record(&mut self, action: ShadowFileAction, removed: bool)
        ensures
            final(self).scanned == sat_inc(old(self).scanned),
            final(self).skipped_active == if action == ShadowFileAction::SkipActive {
                sat_inc(old(self).skipped_active)
            } else {
                old(self).skipped_active
            },
            final(self).skipped_unrecognized == if action == ShadowFileAction::SkipUnrecognized {
                sat_inc(old(self).skipped_unrecognized)
            } else {
                old(self).skipped_unrecognized
            },
            final(self).skipped_recent_current_process == if action
                == ShadowFileAction::SkipRecentCurrentProcess {
                sat_inc(old(self).skipped_recent_current_process)
            } else {
                old(self).skipped_recent_current_process
            },
            final(self).deleted == if action == ShadowFileAction::Delete && removed {
                sat_inc(old(self).deleted)
            } else {
                old(self).deleted
            },
            final(self).failed == if action == ShadowFileAction::Delete && !removed {
                sat_inc(old(self).failed)
            } else {
                old(self).failed
            },
    {
        self.scanned = self.scanned.saturating_add(1);
        match action {
            ShadowFileAction::SkipActive => {
                self.skipped_active = self.skipped_active.saturating_add(1);
            },
            ShadowFileAction::SkipUnrecognized => {
                self.skipped_unrecognized = self.skipped_unrecognized.saturating_add(1);
            },
            ShadowFileAction::SkipRecentCurrentProcess => {
                self.skipped_recent_current_process =
                self.skipped_recent_current_process.saturating_add(1);
            },
            ShadowFileAction::Delete => {
                if removed {
                    self.deleted = self.deleted.saturating_add(1);
                } else {
                    self.failed = self.failed.saturating_add(1);
                }
            },
        }
    }
}

} // verus!
