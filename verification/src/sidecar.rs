//! Sidecar launch descriptions and the rules that choose a channel transport:
//! transport kinds and options, their ordering by priority, role keys and the
//! environment variable names that carry channel endpoints.
use vstd::prelude::*;

use crate::text::{
    chars_of, is_ascii_alnum, is_ascii_alnum_exec, upper_c, upper_c_exec,
};

verus! {

/// How a sidecar channel moves bytes.
#[derive(Debug, Clone, Copy, PartialEq, Eq, Structural)]
pub enum SidecarTransportKind {
    Stdio,
    NamedPipe,
    UnixSocket,
    LoopbackTcp,
    SharedMemoryRing,
}

/// One transport that a side prefers, with its priority (higher first).
#[derive(Debug, Clone, Copy, PartialEq, Eq, Structural)]
pub struct SidecarTransportOption {
    pub kind: SidecarTransportKind,
    pub priority: u8,
    pub max_frame_bytes: Option<u32>,
}

/// Whether a sidecar process is shared by the instances of a plugin package.
#[derive(Debug, Clone, Copy, PartialEq, Eq, Structural)]
pub enum SidecarLaunchScope {
    Instance,
    Package,
}

/// Everything needed to start a sidecar process.
#[derive(Debug)]
pub struct SidecarLaunchSpec {
    pub scope: SidecarLaunchScope,
    pub executable: String,
    pub args: Vec<String>,
    pub preferred_control: Vec<SidecarTransportOption>,
    pub preferred_data: Vec<SidecarTransportOption>,
    pub env: Vec<(String, String)>,
}

/// The suffixes of the environment variables that carry an endpoint of this
/// transport, most specific first.
pub open spec fn suffixes_spec(kind: SidecarTransportKind) -> Seq<Seq<char>> {
    match kind {
        SidecarTransportKind::Stdio => seq!["STDIO"@],
        SidecarTransportKind::NamedPipe => seq!["NAMED_PIPE"@, "PIPE"@],
        SidecarTransportKind::UnixSocket => seq!["UNIX_SOCKET"@, "UNIX"@],
        SidecarTransportKind::LoopbackTcp => seq!["LOOPBACK_TCP"@, "TCP"@],
        SidecarTransportKind::SharedMemoryRing => seq!["SHARED_MEMORY_RING"@, "SHM"@],
    }
}

pub open spec fn strings_view(v: Seq<String>) -> Seq<Seq<char>> {
    v.map_values(|s: String| s@)
}

/// The environment variable suffixes of a transport.
pub fn transport_env_suffixes(kind: SidecarTransportKind) -> (r: Vec<String>)
    ensures
        strings_view(r@) == suffixes_spec(kind),
{
    let mut r: Vec<String> = Vec::new();
    match kind {
        SidecarTransportKind::Stdio => {
            r.push(String::from_str("STDIO"));
        },
        SidecarTransportKind::NamedPipe => {
            r.push(String::from_str("NAMED_PIPE"));
            r.push(String::from_str("PIPE"));
        },
        SidecarTransportKind::UnixSocket => {
            r.push(String::from_str("UNIX_SOCKET"));
            r.push(String::from_str("UNIX"));
        },
        SidecarTransportKind::LoopbackTcp => {
            r.push(String::from_str("LOOPBACK_TCP"));
            r.push(String::from_str("TCP"));
        },
        SidecarTransportKind::SharedMemoryRing => {
            r.push(String::from_str("SHARED_MEMORY_RING"));
            r.push(String::from_str("SHM"));
        },
    }
    assert(strings_view(r@) =~= suffixes_spec(kind));
    r
}

/// `s` without leading copies of `c`.
pub open spec fn strip_start_c(s: Seq<char>, c: char) -> Seq<char>
    decreases s.len(),
{
    if s.len() > 0 && s[0] == c {
        strip_start_c(s.drop_first(), c)
    } else {
        s
    }
}

/// `s` without trailing copies of `c`.
pub open spec fn strip_end_c(s: Seq<char>, c: char) -> Seq<char>
    decreases s.len(),
{
    if s.len() > 0 && s.last() == c {
        strip_end_c(s.drop_last(), c)
    } else {
        s
    }
}

/// One character of a role key: ASCII letters and digits uppercased, anything
/// else an underscore.
pub open spec fn role_key_char(c: char) -> char {
    if is_ascii_alnum(c) {
        upper_c(c)
    } else {
        '_'
    }
}

/// The role key of `role`: its trimmed characters mapped by `role_key_char`,
/// without leading or trailing underscores.
pub open spec fn role_key_spec(role: Seq<char>) -> Seq<char> {
    strip_end_c(
        strip_start_c(
            crate::text::trim_s(role).map_values(|c: char| role_key_char(c)),
            '_',
        ),
        '_',
    )
}

/// The key under which a data channel of `role` finds its endpoint.
pub fn normalize_role_key(role: &str) -> (r: String)
    ensures
        r@ == role_key_spec(role@),
{
    let v = chars_of(role);
    let (a, b) = crate::text::trim_range(&v, 0, v.len());
    assert(v@.subrange(0, v@.len() as int) =~= v@);
    let ghost t = v@.subrange(a as int, b as int);
    let mut mapped: Vec<char> = Vec::new();
    let mut i: usize = a;
    while i < b
        invariant
            a <= i <= b <= v@.len(),
            mapped@ == v@.subrange(a as int, i as int).map_values(|c: char| role_key_char(c)),
        decreases b - i,
    {
        let c = v[i];
        let m = if is_ascii_alnum_exec(c) {
            upper_c_exec(c)
        } else {
            '_'
        };
        mapped.push(m);
        i = i + 1;
        assert(mapped@ =~= v@.subrange(a as int, i as int).map_values(
            |c: char| role_key_char(c),
        ));
    }
    let ghost m = mapped@;
    assert(m.subrange(0, m.len() as int) =~= m);
    let mut lo: usize = 0;
    while lo < mapped.len() && mapped[lo] == '_'
        invariant
            0 <= lo <= mapped@.len(),
            strip_start_c(m, '_') == strip_start_c(m.subrange(lo as int, m.len() as int), '_'),
            mapped@ == m,
        decreases mapped@.len() - lo,
    {
        assert(m.subrange(lo as int, m.len() as int).drop_first() =~= m.subrange(
            lo + 1,
            m.len() as int,
        ));
        lo = lo + 1;
    }
    assert(strip_start_c(m.subrange(lo as int, m.len() as int), '_') == m.subrange(
        lo as int,
        m.len() as int,
    ));
    let mut hi: usize = mapped.len();
    while hi > lo && mapped[hi - 1] == '_'
        invariant
            lo <= hi <= mapped@.len(),
            strip_end_c(m.subrange(lo as int, m.len() as int), '_') == strip_end_c(
                m.subrange(lo as int, hi as int),
                '_',
            ),
            mapped@ == m,
        decreases hi - lo,
    {
        assert(m.subrange(lo as int, hi as int).drop_last() =~= m.subrange(
            lo as int,
            hi - 1,
        ));
        hi = hi - 1;
    }
    assert(strip_end_c(m.subrange(lo as int, hi as int), '_') == m.subrange(lo as int, hi as int));
    crate::text::string_of_range(&mapped, lo, hi)
}

/// The kinds of the options with priority `p`, in the order they appear.
pub open spec fn kinds_with_priority(opts: Seq<SidecarTransportOption>, p: int) -> Seq<
    SidecarTransportKind,
>
    decreases opts.len(),
{
    if opts.len() == 0 {
        Seq::empty()
    } else {
        let r = kinds_with_priority(opts.drop_last(), p);
        if opts.last().priority == p {
            r.push(opts.last().kind)
        } else {
            r
        }
    }
}

/// The kinds of all options, highest priority first and, within one
/// priority, in the order they appear (a stable sort), from priority 255 down
/// to `p`.
pub open spec fn kinds_by_priority_from(opts: Seq<SidecarTransportOption>, p: int) -> Seq<
    SidecarTransportKind,
>
    decreases 256 - p,
{
    if p > 255 {
        Seq::empty()
    } else {
        kinds_by_priority_from(opts, p + 1) + kinds_with_priority(opts, p)
    }
}

/// `s` with every element after its first occurrence removed.
pub open spec fn dedup_kinds(s: Seq<SidecarTransportKind>) -> Seq<SidecarTransportKind>
    decreases s.len(),
{
    if s.len() == 0 {
        Seq::empty()
    } else {
        let d = dedup_kinds(s.drop_last());
        if d.contains(s.last()) {
            d
        } else {
            d.push(s.last())
        }
    }
}

/// The transports to try, in order: stdio where nothing is preferred, else
/// each preferred kind once, by descending priority, ties in the order given.
pub open spec fn ordered_kinds_spec(opts: Seq<SidecarTransportOption>) -> Seq<
    SidecarTransportKind,
> {
    if opts.len() == 0 {
        seq![SidecarTransportKind::Stdio]
    } else {
        dedup_kinds(kinds_by_priority_from(opts, 0))
    }
}

fn contains_kind(v: &Vec<SidecarTransportKind>, k: SidecarTransportKind) -> (r: bool)
    ensures
        r == v@.contains(k),
{
    let mut i: usize = 0;
    while i < v.len()
        invariant
            0 <= i <= v@.len(),
            forall|j: int| 0 <= j < i ==> v@[j] != k,
        decreases v@.len() - i,
    {
        if v[i] == k {
            return true;
        }
        i = i + 1;
    }
    false
}

pub proof fn lemma_dedup_push(s: Seq<SidecarTransportKind>, x: SidecarTransportKind)
    ensures
        dedup_kinds(s.push(x)) == if dedup_kinds(s).contains(x) {
            dedup_kinds(s)
        } else {
            dedup_kinds(s).push(x)
        },
{
    assert(s.push(x).drop_last() =~= s);
}

/// The transport kinds to try for a channel, in order.
pub fn ordered_kinds(options: &Vec<SidecarTransportOption>) -> (r: Vec<SidecarTransportKind>)
    ensures
        r@ == ordered_kinds_spec(options@),
{
    if options.len() == 0 {
        let r = vec![SidecarTransportKind::Stdio];
        assert(r@ =~= seq![SidecarTransportKind::Stdio]);
        return r;
    }
    let mut out: Vec<SidecarTransportKind> = Vec::new();
    let mut p: u16 = 256;
    assert(kinds_by_priority_from(options@, 256) =~= Seq::<SidecarTransportKind>::empty());
    while p > 0
        invariant
            0 <= p <= 256,
            out@ == dedup_kinds(kinds_by_priority_from(options@, p as int)),
        decreases p,
    {
        let q: u16 = p - 1;
        let ghost base = kinds_by_priority_from(options@, p as int);
        let mut i: usize = 0;
        assert(options@.take(0) =~= Seq::<SidecarTransportOption>::empty());
        assert(base + kinds_with_priority(options@.take(0), q as int) =~= base);
        while i < options.len()
            invariant
                0 <= i <= options@.len(),
                q < 256,
                base == kinds_by_priority_from(options@, (q + 1) as int),
                out@ == dedup_kinds(base + kinds_with_priority(options@.take(i as int), q as int)),
            decreases options@.len() - i,
        {
            let o = options[i];
            let ghost prev = base + kinds_with_priority(options@.take(i as int), q as int);
            assert(options@.take((i + 1) as int).drop_last() =~= options@.take(i as int));
            assert(options@.take((i + 1) as int).last() == o);
            if o.priority as u16 == q {
                proof {
                    assert(base + kinds_with_priority(options@.take((i + 1) as int), q as int)
                        =~= prev.push(o.kind));
                    lemma_dedup_push(prev, o.kind);
                }
                if !contains_kind(&out, o.kind) {
                    out.push(o.kind);
                }
            } else {
                assert(base + kinds_with_priority(options@.take((i + 1) as int), q as int)
                    =~= prev);
            }
            i = i + 1;
        }
        assert(options@.take(options@.len() as int) =~= options@);
        p = q;
    }
    out
}

/// The data transports of a request merged with those the process was
/// launched with: the request's own where it names none, else the request's
/// followed by each launch option whose kind is not already present.
pub open spec fn merged_preferred_spec(
    preferred: Seq<SidecarTransportOption>,
    launch: Seq<SidecarTransportOption>,
) -> Seq<SidecarTransportOption>
    decreases launch.len(),
{
    if preferred.len() == 0 {
        launch
    } else if launch.len() == 0 {
        preferred
    } else {
        let m = merged_preferred_spec(preferred, launch.drop_last());
        if exists|i: int| 0 <= i < m.len() && m[i].kind == launch.last().kind {
            m
        } else {
            m.push(launch.last())
        }
    }
}

/// Merges the transports a data channel asks for with those of the launch.
pub fn merged_data_preferred(
    preferred: &Vec<SidecarTransportOption>,
    launch_preferred: &Vec<SidecarTransportOption>,
) -> (r: Vec<SidecarTransportOption>)
    ensures
        r@ == merged_preferred_spec(preferred@, launch_preferred@),
{
    if preferred.len() == 0 {
        return launch_preferred.clone();
    }
    let mut merged = preferred.clone();
    let mut i: usize = 0;
    assert(launch_preferred@.take(0) =~= Seq::<SidecarTransportOption>::empty());
    while i < launch_preferred.len()
        invariant
            0 <= i <= launch_preferred@.len(),
            preferred@.len() > 0,
            merged@ == merged_preferred_spec(preferred@, launch_preferred@.take(i as int)),
        decreases launch_preferred@.len() - i,
    {
        let o = launch_preferred[i];
        assert(launch_preferred@.take((i + 1) as int).drop_last() =~= launch_preferred@.take(
            i as int,
        ));
        let mut present = false;
        let mut j: usize = 0;
        while j < merged.len()
            invariant
                0 <= j <= merged@.len(),
                present == exists|k: int| 0 <= k < j && merged@[k].kind == o.kind,
            decreases merged@.len() - j,
        {
            if merged[j].kind == o.kind {
                present = true;
            }
            j = j + 1;
        }
        if !present {
            merged.push(o);
        }
        i = i + 1;
    }
    assert(launch_preferred@.take(launch_preferred@.len() as int) =~= launch_preferred@);
    merged
}

} // verus!
