//! Parsing of the shared-memory ring endpoint strings that the host hands to a
//! sidecar process (`tx=<path>;rx=<path>;tx_data_event=<name>;...`).
use vstd::prelude::*;

use crate::error::Error;
use crate::text::{
    dec_digits, push_decimal, push_decimal_wide, push_str, chars_of, is_ws, lower_c, lower_range, lower_s, range_contains, range_eq, string_of, string_of_range, trim_end_s,
    trim_range, trim_s, trim_start_s,
};

verus! {

/// The rings (and optional wake-up events) of one shared-memory channel.
#[derive(Debug)]
pub struct SharedMemoryEndpoint {
    pub tx_path: String,
    pub rx_path: String,
    pub tx_data_event: Option<String>,
    pub tx_space_event: Option<String>,
    pub rx_data_event: Option<String>,
    pub rx_space_event: Option<String>,
}

/// The fields collected while reading the `key=value` parts of an endpoint.
pub struct EndpointFields {
    pub tx: Option<Seq<char>>,
    pub rx: Option<Seq<char>>,
    pub tx_data_event: Option<Seq<char>>,
    pub tx_space_event: Option<Seq<char>>,
    pub rx_data_event: Option<Seq<char>>,
    pub rx_space_event: Option<Seq<char>>,
}

pub open spec fn opt_view(o: Option<String>) -> Option<Seq<char>> {
    match o {
        Some(s) => Some(s@),
        None => None,
    }
}

impl SharedMemoryEndpoint {
    pub open spec fn fields(&self) -> EndpointFields {
        EndpointFields {
            tx: Some(self.tx_path@),
            rx: Some(self.rx_path@),
            tx_data_event: opt_view(self.tx_data_event),
            tx_space_event: opt_view(self.tx_space_event),
            rx_data_event: opt_view(self.rx_data_event),
            rx_space_event: opt_view(self.rx_space_event),
        }
    }
}

pub open spec fn is_part_sep(c: char) -> bool {
    c == ';' || c == ','
}

/// `s.split([';', ','])`: the parts between separators, empty ones included.
pub open spec fn split_parts(s: Seq<char>) -> Seq<Seq<char>>
    decreases s.len(),
{
    if s.len() == 0 {
        seq![Seq::<char>::empty()]
    } else {
        let prev = split_parts(s.drop_last());
        if is_part_sep(s.last()) {
            prev.push(Seq::<char>::empty())
        } else {
            prev.update(prev.len() - 1, prev.last().push(s.last()))
        }
    }
}

pub proof fn lemma_split_parts_nonempty(s: Seq<char>)
    ensures
        split_parts(s).len() >= 1,
    decreases s.len(),
{
    if s.len() > 0 {
        lemma_split_parts_nonempty(s.drop_last());
    }
}

/// `k` is the index of the first `=` in `p`.
pub open spec fn is_first_eq(p: Seq<char>, k: int) -> bool {
    &&& 0 <= k < p.len()
    &&& p[k] == '='
    &&& forall|j: int| 0 <= j < k ==> p[j] != '='
}

/// The index of the first `=` in `p`, or -1 where there is none.
pub open spec fn first_eq(p: Seq<char>) -> int {
    if exists|k: int| is_first_eq(p, k) {
        choose|k: int| is_first_eq(p, k)
    } else {
        -1
    }
}

pub proof fn lemma_first_eq_unique(p: Seq<char>, k: int)
    requires
        is_first_eq(p, k),
    ensures
        first_eq(p) == k,
{
    let c = choose|k2: int| is_first_eq(p, k2);
    assert(is_first_eq(p, c));
    if c < k {
        assert(p[c] != '=');
    }
    if k < c {
        assert(p[k] != '=');
    }
}

pub open spec fn key_is(key: Seq<char>, a: Seq<char>, b: Seq<char>, c: Seq<char>) -> bool {
    key == a || key == b || key == c
}

/// What one part contributes: `key=value`, both trimmed, the key lowercased.
pub open spec fn apply_part(f: EndpointFields, part: Seq<char>) -> EndpointFields {
    let p = trim_s(part);
    let k = first_eq(p);
    if p.len() == 0 || k < 0 {
        f
    } else {
        let key = lower_s(trim_s(p.subrange(0, k)));
        let value = trim_s(p.subrange(k + 1, p.len() as int));
        if value.len() == 0 {
            f
        } else if key_is(key, "tx"@, "write"@, "host_to_sidecar"@) {
            EndpointFields { tx: Some(value), ..f }
        } else if key_is(key, "rx"@, "read"@, "sidecar_to_host"@) {
            EndpointFields { rx: Some(value), ..f }
        } else if key == "tx_data_event"@ || key == "host_to_sidecar_data_event"@ {
            EndpointFields { tx_data_event: Some(value), ..f }
        } else if key == "tx_space_event"@ || key == "host_to_sidecar_space_event"@ {
            EndpointFields { tx_space_event: Some(value), ..f }
        } else if key == "rx_data_event"@ || key == "sidecar_to_host_data_event"@ {
            EndpointFields { rx_data_event: Some(value), ..f }
        } else if key == "rx_space_event"@ || key == "sidecar_to_host_space_event"@ {
            EndpointFields { rx_space_event: Some(value), ..f }
        } else if key == "path"@ || key == "ring"@ {
            EndpointFields {
                tx: if f.tx is None { Some(value) } else { f.tx },
                rx: if f.rx is None { Some(value) } else { f.rx },
                ..f
            }
        } else {
            f
        }
    }
}

pub open spec fn no_fields() -> EndpointFields {
    EndpointFields {
        tx: None,
        rx: None,
        tx_data_event: None,
        tx_space_event: None,
        rx_data_event: None,
        rx_space_event: None,
    }
}

/// The fields after reading `parts` from left to right.
pub open spec fn fold_parts(parts: Seq<Seq<char>>) -> EndpointFields
    decreases parts.len(),
{
    if parts.len() == 0 {
        no_fields()
    } else {
        apply_part(fold_parts(parts.drop_last()), parts.last())
    }
}

/// The endpoint that `raw` describes, or `None` where it names no ring.
pub open spec fn endpoint_spec(raw: Seq<char>) -> Option<EndpointFields> {
    let e = trim_s(raw);
    if e.len() == 0 {
        None
    } else if !e.contains('=') {
        Some(
            EndpointFields {
                tx: Some(e),
                rx: Some(e),
                tx_data_event: None,
                tx_space_event: None,
                rx_data_event: None,
                rx_space_event: None,
            },
        )
    } else {
        let f = fold_parts(split_parts(e));
        if f.tx is None && f.rx is None {
            None
        } else {
            let tx = if f.tx is Some { f.tx } else { f.rx };
            let rx = if f.rx is Some { f.rx } else { tx };
            Some(EndpointFields { tx, rx, ..f })
        }
    }
}

/// The index of the first `c` in `v[lo..hi]`.
fn find_char(v: &Vec<char>, lo: usize, hi: usize, c: char) -> (r: Option<usize>)
    requires
        lo <= hi <= v@.len(),
    ensures
        match r {
            Some(k) => lo <= k < hi && v@[k as int] == c && forall|j: int|
                lo <= j < k ==> v@[j] != c,
            None => forall|j: int| lo <= j < hi ==> v@[j] != c,
        },
{
    let mut i: usize = lo;
    while i < hi
        invariant
            lo <= i <= hi <= v@.len(),
            forall|j: int| lo <= j < i ==> v@[j] != c,
        decreases hi - i,
    {
        if v[i] == c {
            return Some(i);
        }
        i = i + 1;
    }
    None
}

/// Exec copies of the key names that an endpoint may use.
struct EndpointKeys {
    tx: Vec<char>,
    write: Vec<char>,
    host_to_sidecar: Vec<char>,
    rx: Vec<char>,
    read: Vec<char>,
    sidecar_to_host: Vec<char>,
    tx_data_event: Vec<char>,
    host_to_sidecar_data_event: Vec<char>,
    tx_space_event: Vec<char>,
    host_to_sidecar_space_event: Vec<char>,
    rx_data_event: Vec<char>,
    sidecar_to_host_data_event: Vec<char>,
    rx_space_event: Vec<char>,
    sidecar_to_host_space_event: Vec<char>,
    path: Vec<char>,
    ring: Vec<char>,
}

impl EndpointKeys {
    spec fn wf(&self) -> bool {
        &&& self.tx@ == "tx"@
        &&& self.write@ == "write"@
        &&& self.host_to_sidecar@ == "host_to_sidecar"@
        &&& self.rx@ == "rx"@
        &&& self.read@ == "read"@
        &&& self.sidecar_to_host@ == "sidecar_to_host"@
        &&& self.tx_data_event@ == "tx_data_event"@
        &&& self.host_to_sidecar_data_event@ == "host_to_sidecar_data_event"@
        &&& self.tx_space_event@ == "tx_space_event"@
        &&& self.host_to_sidecar_space_event@ == "host_to_sidecar_space_event"@
        &&& self.rx_data_event@ == "rx_data_event"@
        &&& self.sidecar_to_host_data_event@ == "sidecar_to_host_data_event"@
        &&& self.rx_space_event@ == "rx_space_event"@
        &&& self.sidecar_to_host_space_event@ == "sidecar_to_host_space_event"@
        &&& self.path@ == "path"@
        &&& self.ring@ == "ring"@
    }

    fn new() -> (k: EndpointKeys)
        ensures
            k.wf(),
    {
        EndpointKeys {
            tx: chars_of("tx"),
            write: chars_of("write"),
            host_to_sidecar: chars_of("host_to_sidecar"),
            rx: chars_of("rx"),
            read: chars_of("read"),
            sidecar_to_host: chars_of("sidecar_to_host"),
            tx_data_event: chars_of("tx_data_event"),
            host_to_sidecar_data_event: chars_of("host_to_sidecar_data_event"),
            tx_space_event: chars_of("tx_space_event"),
            host_to_sidecar_space_event: chars_of("host_to_sidecar_space_event"),
            rx_data_event: chars_of("rx_data_event"),
            sidecar_to_host_data_event: chars_of("sidecar_to_host_data_event"),
            rx_space_event: chars_of("rx_space_event"),
            sidecar_to_host_space_event: chars_of("sidecar_to_host_space_event"),
            path: chars_of("path"),
            ring: chars_of("ring"),
        }
    }
}

fn vec_eq(a: &Vec<char>, b: &Vec<char>) -> (r: bool)
    ensures
        r == (a@ == b@),
{
    let r = range_eq(a, 0, a.len(), b);
    assert(a@.subrange(0, a@.len() as int) =~= a@);
    r
}

/// Exec state of the fields collected so far.
struct FieldsExec {
    tx: Option<String>,
    rx: Option<String>,
    tx_data_event: Option<String>,
    tx_space_event: Option<String>,
    rx_data_event: Option<String>,
    rx_space_event: Option<String>,
}

impl FieldsExec {
    spec fn view_fields(&self) -> EndpointFields {
        EndpointFields {
            tx: opt_view(self.tx),
            rx: opt_view(self.rx),
            tx_data_event: opt_view(self.tx_data_event),
            tx_space_event: opt_view(self.tx_space_event),
            rx_data_event: opt_view(self.rx_data_event),
            rx_space_event: opt_view(self.rx_space_event),
        }
    }
}

/// Reads the part `v[lo..hi]` into `f`.
fn apply_part_exec(keys: &EndpointKeys, f: &mut FieldsExec, v: &Vec<char>, lo: usize, hi: usize)
    requires
        keys.wf(),
        lo <= hi <= v@.len(),
    ensures
        final(f).view_fields() == apply_part(old(f).view_fields(), v@.subrange(lo as int, hi as int)),
{
    let ghost part = v@.subrange(lo as int, hi as int);
    let (pa, pb) = trim_range(v, lo, hi);
    let ghost p = v@.subrange(pa as int, pb as int);
    assert(p == trim_s(part));
    if pa == pb {
        return;
    }
    let k = match find_char(v, pa, pb, '=') {
        Some(k) => k,
        None => {
            assert forall|k: int| !is_first_eq(p, k) by {
                if 0 <= k < p.len() {
                    assert(p[k] == v@[pa + k]);
                }
            }
            return;
        },
    };
    proof {
        assert forall|j: int| 0 <= j < k - pa implies p[j] != '=' by {
            assert(p[j] == v@[pa + j]);
        }
        assert(is_first_eq(p, k - pa));
        lemma_first_eq_unique(p, k - pa);
        assert(p.subrange(0, k - pa) =~= v@.subrange(pa as int, k as int));
        assert(p.subrange(k - pa + 1, p.len() as int) =~= v@.subrange(k + 1, pb as int));
    }
    let (ka, kb) = trim_range(v, pa, k);
    let key = lower_range(v, ka, kb);
    let (va, vb) = trim_range(v, k + 1, pb);
    if va == vb {
        return;
    }
    let ghost value = v@.subrange(va as int, vb as int);
    if vec_eq(&key, &keys.tx) || vec_eq(&key, &keys.write) || vec_eq(&key, &keys.host_to_sidecar) {
        f.tx = Some(string_of_range(v, va, vb));
    } else if vec_eq(&key, &keys.rx) || vec_eq(&key, &keys.read) || vec_eq(
        &key,
        &keys.sidecar_to_host,
    ) {
        f.rx = Some(string_of_range(v, va, vb));
    } else if vec_eq(&key, &keys.tx_data_event) || vec_eq(&key, &keys.host_to_sidecar_data_event) {
        f.tx_data_event = Some(string_of_range(v, va, vb));
    } else if vec_eq(&key, &keys.tx_space_event) || vec_eq(
        &key,
        &keys.host_to_sidecar_space_event,
    ) {
        f.tx_space_event = Some(string_of_range(v, va, vb));
    } else if vec_eq(&key, &keys.rx_data_event) || vec_eq(&key, &keys.sidecar_to_host_data_event) {
        f.rx_data_event = Some(string_of_range(v, va, vb));
    } else if vec_eq(&key, &keys.rx_space_event) || vec_eq(
        &key,
        &keys.sidecar_to_host_space_event,
    ) {
        f.rx_space_event = Some(string_of_range(v, va, vb));
    } else if vec_eq(&key, &keys.path) || vec_eq(&key, &keys.ring) {
        if f.tx.is_none() {
            f.tx = Some(string_of_range(v, va, vb));
        }
        if f.rx.is_none() {
            f.rx = Some(string_of_range(v, va, vb));
        }
    }
}

/// Parses a shared-memory endpoint: a single ring path, used in both
/// directions, or `key=value` parts separated by `;` or `,`.
pub fn parse_shared_memory_endpoint(endpoint: &str) -> (r: Result<SharedMemoryEndpoint, Error>)
    ensures
        match r {
            Ok(ep) => endpoint_spec(endpoint@) == Some(ep.fields()),
            Err(e) => endpoint_spec(endpoint@) is None && (e matches Error::InvalidInput {
                message,
            } && message@ == if trim_s(endpoint@).len() == 0 {
                "shared-memory endpoint is empty"@
            } else {
                "shared-memory endpoint missing `tx` or `path`"@
            }),
        },
{
    let v = chars_of(endpoint);
    let (a, b) = trim_range(&v, 0, v.len());
    assert(v@.subrange(0, v@.len() as int) =~= v@);
    let ghost e = v@.subrange(a as int, b as int);
    if a == b {
        return Err(Error::invalid_input("shared-memory endpoint is empty"));
    }
    if !range_contains(&v, a, b, '=') {
        let s = string_of_range(&v, a, b);
        return Ok(
            SharedMemoryEndpoint {
                tx_path: s.clone(),
                rx_path: s,
                tx_data_event: None,
                tx_space_event: None,
                rx_data_event: None,
                rx_space_event: None,
            },
        );
    }
    let keys = EndpointKeys::new();
    let mut f = FieldsExec {
        tx: None,
        rx: None,
        tx_data_event: None,
        tx_space_event: None,
        rx_data_event: None,
        rx_space_event: None,
    };
    let ghost mut done: Seq<Seq<char>> = Seq::empty();
    let mut ps: usize = a;
    let mut i: usize = a;
    assert(v@.subrange(a as int, a as int) =~= Seq::<char>::empty());
    assert(split_parts(Seq::<char>::empty()) =~= done.push(Seq::<char>::empty()));
    assert(fold_parts(done) == no_fields());
    while i < b
        invariant
            a <= ps <= i <= b <= v@.len(),
            keys.wf(),
            e == v@.subrange(a as int, b as int),
            split_parts(v@.subrange(a as int, i as int)) == done.push(
                v@.subrange(ps as int, i as int),
            ),
            f.view_fields() == fold_parts(done),
        decreases b - i,
    {
        let ghost cur = v@.subrange(ps as int, i as int);
        let ghost prefix = v@.subrange(a as int, (i + 1) as int);
        assert(prefix.drop_last() =~= v@.subrange(a as int, i as int));
        assert(prefix.last() == v@[i as int]);
        let c = v[i];
        if c == ';' || c == ',' {
            apply_part_exec(&keys, &mut f, &v, ps, i);
            proof {
                assert(done.push(cur).drop_last() =~= done);
                done = done.push(cur);
                assert(v@.subrange((i + 1) as int, (i + 1) as int) =~= Seq::<char>::empty());
            }
            ps = i + 1;
        } else {
            proof {
                assert(v@.subrange(ps as int, (i + 1) as int) =~= cur.push(c));
                assert(done.push(cur).update(done.len() as int, cur.push(c)) =~= done.push(
                    cur.push(c),
                ));
            }
        }
        i = i + 1;
    }
    let ghost cur = v@.subrange(ps as int, b as int);
    apply_part_exec(&keys, &mut f, &v, ps, b);
    proof {
        assert(done.push(cur).drop_last() =~= done);
        assert(fold_parts(split_parts(e)) == f.view_fields());
    }
    let tx_path = match f.tx {
        Some(t) => t,
        None => match &f.rx {
            Some(r) => r.clone(),
            None => {
                return Err(Error::invalid_input("shared-memory endpoint missing `tx` or `path`"));
            },
        },
    };
    let rx_path = match f.rx {
        Some(r) => r,
        None => tx_path.clone(),
    };
    Ok(
        SharedMemoryEndpoint {
            tx_path,
            rx_path,
            tx_data_event: f.tx_data_event,
            tx_space_event: f.tx_space_event,
            rx_data_event: f.rx_data_event,
            rx_space_event: f.rx_space_event,
        },
    )
}

/// The endpoint text the host hands a sidecar for the rings it created.
pub open spec fn endpoint_text(
    tx: Seq<char>,
    rx: Seq<char>,
    tx_data_event: Seq<char>,
    tx_space_event: Seq<char>,
    rx_data_event: Seq<char>,
    rx_space_event: Seq<char>,
) -> Seq<char> {
    "tx="@ + tx + ";rx="@ + rx + ";tx_data_event="@ + tx_data_event + ";tx_space_event="@
        + tx_space_event + ";rx_data_event="@ + rx_data_event + ";rx_space_event="@
        + rx_space_event
}

/// Writes the endpoint of two rings and their four wake-up events.
pub fn format_shared_memory_endpoint(
    tx_path: &str,
    rx_path: &str,
    tx_data_event: &str,
    tx_space_event: &str,
    rx_data_event: &str,
    rx_space_event: &str,
) -> (s: String)
    ensures
        s@ == endpoint_text(tx_path@, rx_path@, tx_data_event@, tx_space_event@, rx_data_event@, rx_space_event@),
{
    let mut v: Vec<char> = Vec::new();
    push_str(&mut v, "tx=");
    push_str(&mut v, tx_path);
    push_str(&mut v, ";rx=");
    push_str(&mut v, rx_path);
    push_str(&mut v, ";tx_data_event=");
    push_str(&mut v, tx_data_event);
    push_str(&mut v, ";tx_space_event=");
    push_str(&mut v, tx_space_event);
    push_str(&mut v, ";rx_data_event=");
    push_str(&mut v, rx_data_event);
    push_str(&mut v, ";rx_space_event=");
    push_str(&mut v, rx_space_event);
    assert(v@ =~= endpoint_text(tx_path@, rx_path@, tx_data_event@, tx_space_event@, rx_data_event@, rx_space_event@));
    string_of(&v)
}

/// A value that reads back as itself: not empty, no separator, and no
/// whitespace at either end.
pub open spec fn plain_value(v: Seq<char>) -> bool {
    &&& v.len() > 0
    &&& !is_ws(v[0])
    &&& !is_ws(v.last())
    &&& !v.contains(';')
    &&& !v.contains(',')
}

proof fn lemma_trim_plain(s: Seq<char>)
    requires
        s.len() > 0,
        !is_ws(s[0]),
        !is_ws(s.last()),
    ensures
        trim_s(s) == s,
{
    assert(trim_start_s(s) == s);
    assert(trim_end_s(s) == s);
}

proof fn lemma_split_single(p: Seq<char>)
    requires
        !p.contains(';'),
        !p.contains(','),
    ensures
        split_parts(p) == seq![p],
    decreases p.len(),
{
    if p.len() > 0 {
        assert(!p.drop_last().contains(';') && !p.drop_last().contains(',')) by {
            if p.drop_last().contains(';') {
                let i = choose|i: int| 0 <= i < p.drop_last().len() && p.drop_last()[i] == ';';
                assert(p[i] == ';');
            }
            if p.drop_last().contains(',') {
                let i = choose|i: int| 0 <= i < p.drop_last().len() && p.drop_last()[i] == ',';
                assert(p[i] == ',');
            }
        }
        lemma_split_single(p.drop_last());
        assert(p[p.len() - 1] == p.last());
        assert(!is_part_sep(p.last()));
        assert(p.drop_last().push(p.last()) =~= p);
        assert(seq![p.drop_last()].update(0, p.drop_last().push(p.last())) =~= seq![p]);
    } else {
        assert(p =~= Seq::<char>::empty());
    }
}

proof fn lemma_split_concat(x: Seq<char>, y: Seq<char>)
    ensures
        split_parts(x + seq![';'] + y) == split_parts(x) + split_parts(y),
    decreases y.len(),
{
    let s = x + seq![';'] + y;
    if y.len() == 0 {
        assert(s.drop_last() =~= x);
        assert(s.last() == ';');
        assert(split_parts(y) =~= seq![Seq::<char>::empty()]);
        assert(split_parts(s) =~= split_parts(x) + split_parts(y));
    } else {
        lemma_split_concat(x, y.drop_last());
        assert(s.drop_last() =~= x + seq![';'] + y.drop_last());
        assert(s.last() == y.last());
        let a = split_parts(x);
        let b = split_parts(y.drop_last());
        lemma_split_parts_nonempty(y.drop_last());
        if is_part_sep(y.last()) {
            assert(split_parts(s) =~= a + split_parts(y));
        } else {
            assert((a + b).update((a + b).len() - 1, (a + b).last().push(y.last())) =~= a + b.update(
                b.len() - 1,
                b.last().push(y.last()),
            ));
            assert(split_parts(s) =~= a + split_parts(y));
        }
    }
}

/// Reading one `key=value` part with a plain value.
proof fn lemma_apply_key_value(f: EndpointFields, key: Seq<char>, v: Seq<char>)
    requires
        key.len() > 0,
        !is_ws(key[0]),
        !key.contains('='),
        !key.contains(' '),
        lower_s(key) == key,
        trim_s(key) == key,
        plain_value(v),
    ensures
        ({
            let p = key + seq!['='] + v;
            let k = first_eq(trim_s(p));
            &&& trim_s(p) == p
            &&& k == key.len()
            &&& lower_s(trim_s(p.subrange(0, k))) == key
            &&& trim_s(p.subrange(k + 1, p.len() as int)) == v
        }),
{
    let p = key + seq!['='] + v;
    assert(p[0] == key[0]);
    assert(p.last() == v.last());
    lemma_trim_plain(p);
    assert(is_first_eq(p, key.len() as int)) by {
        assert(p[key.len() as int] == '=');
        assert forall|j: int| 0 <= j < key.len() implies p[j] != '=' by {
            assert(p[j] == key[j]);
            if key[j] == '=' {
                assert(key.contains('='));
            }
        }
    }
    lemma_first_eq_unique(p, key.len() as int);
    assert(p.subrange(0, key.len() as int) =~= key);
    assert(p.subrange(key.len() as int + 1, p.len() as int) =~= v);
    lemma_trim_plain(v);
}

/// A key made of lowercase ASCII letters and underscores.
pub open spec fn simple_key(k: Seq<char>) -> bool {
    k.len() > 0 && forall|i: int| 0 <= i < k.len() ==> (('a' <= #[trigger] k[i] && k[i] <= 'z') || k[i] == '_')
}

proof fn lemma_simple_key(k: Seq<char>)
    requires
        simple_key(k),
    ensures
        !is_ws(k[0]),
        !k.contains('='),
        !k.contains(' '),
        lower_s(k) == k,
        trim_s(k) == k,
{
    assert(lower_s(k) =~= k);
    if k.contains('=') {
        let i = choose|i: int| 0 <= i < k.len() && k[i] == '=';
        assert(('a' <= k[i] && k[i] <= 'z') || k[i] == '_');
    }
    if k.contains(' ') {
        let i = choose|i: int| 0 <= i < k.len() && k[i] == ' ';
        assert(('a' <= k[i] && k[i] <= 'z') || k[i] == '_');
    }
    assert(('a' <= k[0] && k[0] <= 'z') || k[0] == '_');
    assert(('a' <= k.last() && k.last() <= 'z') || k.last() == '_') by {
        assert(k.last() == k[k.len() - 1]);
    }
    lemma_trim_plain(k);
}

proof fn lemma_part_no_sep(k: Seq<char>, v: Seq<char>)
    requires
        simple_key(k),
        plain_value(v),
    ensures
        !(k + seq!['='] + v).contains(';'),
        !(k + seq!['='] + v).contains(','),
{
    let p = k + seq!['='] + v;
    if p.contains(';') {
        let i = choose|i: int| 0 <= i < p.len() && p[i] == ';';
        if i > k.len() {
            assert(v[i - k.len() - 1] == ';');
        } else if i < k.len() {
            assert(p[i] == k[i]);
        }
    }
    if p.contains(',') {
        let i = choose|i: int| 0 <= i < p.len() && p[i] == ',';
        if i > k.len() {
            assert(v[i - k.len() - 1] == ',');
        } else if i < k.len() {
            assert(p[i] == k[i]);
        }
    }
}

proof fn lemma_keys()
    ensures
        simple_key("tx"@),
        simple_key("rx"@),
        simple_key("tx_data_event"@),
        simple_key("tx_space_event"@),
        simple_key("rx_data_event"@),
        simple_key("rx_space_event"@),
        "rx"@ != "tx"@,
        "rx"@ != "write"@,
        "rx"@ != "host_to_sidecar"@,
{
    reveal_strlit("tx");
    reveal_strlit("rx");
    reveal_strlit("write");
    reveal_strlit("host_to_sidecar");
    reveal_strlit("tx_data_event");
    reveal_strlit("tx_space_event");
    reveal_strlit("rx_data_event");
    reveal_strlit("rx_space_event");
    assert("rx"@[0] != "tx"@[0]);
}

proof fn lemma_event_keys_differ()
    ensures
        ({
            let a = "tx_data_event"@;
            let b = "tx_space_event"@;
            let c = "rx_data_event"@;
            let d = "rx_space_event"@;
            let reads = seq!["rx"@, "read"@, "sidecar_to_host"@];
            let writes = seq!["tx"@, "write"@, "host_to_sidecar"@];
            &&& forall|k: Seq<char>| (k == a || k == b || k == c || k == d) ==> !key_is(k, "tx"@, "write"@, "host_to_sidecar"@)
                && !key_is(k, "rx"@, "read"@, "sidecar_to_host"@)
            &&& b != a && b != "host_to_sidecar_data_event"@
            &&& c != a && c != "host_to_sidecar_data_event"@ && c != b && c != "host_to_sidecar_space_event"@
            &&& d != a && d != "host_to_sidecar_data_event"@ && d != b && d != "host_to_sidecar_space_event"@
                && d != c && d != "sidecar_to_host_data_event"@
        }),
{
    reveal_strlit("tx");
    reveal_strlit("rx");
    reveal_strlit("write");
    reveal_strlit("read");
    reveal_strlit("host_to_sidecar");
    reveal_strlit("sidecar_to_host");
    reveal_strlit("tx_data_event");
    reveal_strlit("tx_space_event");
    reveal_strlit("rx_data_event");
    reveal_strlit("rx_space_event");
    reveal_strlit("host_to_sidecar_data_event");
    reveal_strlit("host_to_sidecar_space_event");
    reveal_strlit("sidecar_to_host_data_event");
    reveal_strlit("sidecar_to_host_space_event");
    reveal_strlit("host_to_sidecar_space_event");
    let a = "tx_data_event"@;
    let b = "tx_space_event"@;
    let c = "rx_data_event"@;
    let d = "rx_space_event"@;
    assert(a.len() == 13 && b.len() == 14 && c.len() == 13 && d.len() == 14);
    assert("host_to_sidecar"@.len() == 15 && "sidecar_to_host"@.len() == 15);
    assert("tx"@.len() == 2 && "rx"@.len() == 2 && "write"@.len() == 5 && "read"@.len() == 4);
    assert("host_to_sidecar_data_event"@.len() == 26);
    assert("host_to_sidecar_space_event"@.len() == 27);
    assert("sidecar_to_host_data_event"@.len() == 26);
    assert(b != a);
    assert(c != a) by {
        assert(c[0] != a[0]);
    }
    assert(d != b) by {
        assert(d[0] != b[0]);
    }
    assert(c != b);
    assert(d != a);
    assert(d != c);
}

/// Reading the part `key=v` sets the field that `key` names.
proof fn lemma_read_part(f: EndpointFields, key: Seq<char>, v: Seq<char>)
    requires
        simple_key(key),
        plain_value(v),
    ensures
        apply_part(f, key + seq!['='] + v) == ({
            if key_is(key, "tx"@, "write"@, "host_to_sidecar"@) {
                EndpointFields { tx: Some(v), ..f }
            } else if key_is(key, "rx"@, "read"@, "sidecar_to_host"@) {
                EndpointFields { rx: Some(v), ..f }
            } else if key == "tx_data_event"@ || key == "host_to_sidecar_data_event"@ {
                EndpointFields { tx_data_event: Some(v), ..f }
            } else if key == "tx_space_event"@ || key == "host_to_sidecar_space_event"@ {
                EndpointFields { tx_space_event: Some(v), ..f }
            } else if key == "rx_data_event"@ || key == "sidecar_to_host_data_event"@ {
                EndpointFields { rx_data_event: Some(v), ..f }
            } else if key == "rx_space_event"@ || key == "sidecar_to_host_space_event"@ {
                EndpointFields { rx_space_event: Some(v), ..f }
            } else if key == "path"@ || key == "ring"@ {
                EndpointFields {
                    tx: if f.tx is None { Some(v) } else { f.tx },
                    rx: if f.rx is None { Some(v) } else { f.rx },
                    ..f
                }
            } else {
                f
            }
        }),
{
    lemma_simple_key(key);
    lemma_apply_key_value(f, key, v);
}

/// What the host writes, a sidecar reads back: parsing the endpoint text of
/// plain paths and event names gives those very paths and names.
#[verifier::rlimit(50)]
pub proof fn law_endpoint_round_trip(
    tx: Seq<char>,
    rx: Seq<char>,
    tde: Seq<char>,
    tse: Seq<char>,
    rde: Seq<char>,
    rse: Seq<char>,
)
    requires
        plain_value(tx),
        plain_value(rx),
        plain_value(tde),
        plain_value(tse),
        plain_value(rde),
        plain_value(rse),
    ensures
        endpoint_spec(endpoint_text(tx, rx, tde, tse, rde, rse)) == Some(
            EndpointFields {
                tx: Some(tx),
                rx: Some(rx),
                tx_data_event: Some(tde),
                tx_space_event: Some(tse),
                rx_data_event: Some(rde),
                rx_space_event: Some(rse),
            },
        ),
{
    lemma_keys();
    lemma_event_keys_differ();
    let k1 = "tx"@;
    let k2 = "rx"@;
    let k3 = "tx_data_event"@;
    let k4 = "tx_space_event"@;
    let k5 = "rx_data_event"@;
    let k6 = "rx_space_event"@;
    let p1 = k1 + seq!['='] + tx;
    let p2 = k2 + seq!['='] + rx;
    let p3 = k3 + seq!['='] + tde;
    let p4 = k4 + seq!['='] + tse;
    let p5 = k5 + seq!['='] + rde;
    let p6 = k6 + seq!['='] + rse;
    let text = endpoint_text(tx, rx, tde, tse, rde, rse);
    assert(text == p1 + seq![';'] + (p2 + seq![';'] + (p3 + seq![';'] + (p4 + seq![';'] + (p5
        + seq![';'] + p6))))) by {
        reveal_strlit("tx");
        reveal_strlit("rx");
        reveal_strlit("tx_data_event");
        reveal_strlit("tx_space_event");
        reveal_strlit("rx_data_event");
        reveal_strlit("rx_space_event");
        reveal_strlit("tx=");
        reveal_strlit(";rx=");
        reveal_strlit(";tx_data_event=");
        reveal_strlit(";tx_space_event=");
        reveal_strlit(";rx_data_event=");
        reveal_strlit(";rx_space_event=");
        assert(text =~= p1 + seq![';'] + (p2 + seq![';'] + (p3 + seq![';'] + (p4 + seq![';'] + (p5
            + seq![';'] + p6)))));
    }
    lemma_part_no_sep(k1, tx);
    lemma_part_no_sep(k2, rx);
    lemma_part_no_sep(k3, tde);
    lemma_part_no_sep(k4, tse);
    lemma_part_no_sep(k5, rde);
    lemma_part_no_sep(k6, rse);
    lemma_split_single(p1);
    lemma_split_single(p2);
    lemma_split_single(p3);
    lemma_split_single(p4);
    lemma_split_single(p5);
    lemma_split_single(p6);
    lemma_split_concat(p5, p6);
    lemma_split_concat(p4, p5 + seq![';'] + p6);
    lemma_split_concat(p3, p4 + seq![';'] + (p5 + seq![';'] + p6));
    lemma_split_concat(p2, p3 + seq![';'] + (p4 + seq![';'] + (p5 + seq![';'] + p6)));
    lemma_split_concat(p1, p2 + seq![';'] + (p3 + seq![';'] + (p4 + seq![';'] + (p5 + seq![';'] + p6))));
    let parts = seq![p1, p2, p3, p4, p5, p6];
    assert(split_parts(text) =~= parts);
    let f0 = no_fields();
    lemma_read_part(f0, k1, tx);
    let f1 = apply_part(f0, p1);
    assert(f1 == EndpointFields { tx: Some(tx), ..f0 });
    lemma_read_part(f1, k2, rx);
    let f2 = apply_part(f1, p2);
    assert(f2 == EndpointFields { rx: Some(rx), ..f1 });
    lemma_read_part(f2, k3, tde);
    let f3 = apply_part(f2, p3);
    assert(f3 == EndpointFields { tx_data_event: Some(tde), ..f2 });
    lemma_read_part(f3, k4, tse);
    let f4 = apply_part(f3, p4);
    assert(f4 == EndpointFields { tx_space_event: Some(tse), ..f3 });
    lemma_read_part(f4, k5, rde);
    let f5 = apply_part(f4, p5);
    assert(f5 == EndpointFields { rx_data_event: Some(rde), ..f4 });
    lemma_read_part(f5, k6, rse);
    let f6 = apply_part(f5, p6);
    assert(f6 == EndpointFields { rx_space_event: Some(rse), ..f5 });
    assert(parts.drop_last() =~= seq![p1, p2, p3, p4, p5]);
    assert(seq![p1, p2, p3, p4, p5].drop_last() =~= seq![p1, p2, p3, p4]);
    assert(seq![p1, p2, p3, p4].drop_last() =~= seq![p1, p2, p3]);
    assert(seq![p1, p2, p3].drop_last() =~= seq![p1, p2]);
    assert(seq![p1, p2].drop_last() =~= seq![p1]);
    assert(seq![p1].drop_last() =~= Seq::<Seq<char>>::empty());
    assert(fold_parts(seq![p1]) == f1) by {
        assert(fold_parts(Seq::<Seq<char>>::empty()) == f0);
    }
    assert(fold_parts(seq![p1, p2]) == f2);
    assert(fold_parts(seq![p1, p2, p3]) == f3);
    assert(fold_parts(seq![p1, p2, p3, p4]) == f4);
    assert(fold_parts(seq![p1, p2, p3, p4, p5]) == f5);
    assert(fold_parts(parts) == f6);
    assert(text[0] == 't') by {
        reveal_strlit("tx");
        assert(text[0] == p1[0]);
    }
    assert(text.last() == rse.last());
    lemma_trim_plain(text);
    assert(text[2] == '=') by {
        reveal_strlit("tx");
        assert(text[2] == p1[2]);
    }
    assert(text.contains('='));
}

/// The file name of a ring: `ring-<pid>-<epoch ns>-<direction>[-<attempt>].shm`.
pub open spec fn ring_file_name_text(pid: u32, epoch_ns: u128, direction: Seq<char>, attempt: Option<u32>) -> Seq<char> {
    "ring-"@ + dec_digits(pid as nat) + "-"@ + dec_digits(epoch_ns as nat) + "-"@ + direction + match attempt {
        Some(a) => "-"@ + dec_digits(a as nat),
        None => Seq::<char>::empty(),
    } + ".shm"@
}

pub fn ring_file_name(pid: u32, epoch_ns: u128, direction: &str, attempt: Option<u32>) -> (s: String)
    ensures
        s@ == ring_file_name_text(pid, epoch_ns, direction@, attempt),
{
    let mut v: Vec<char> = Vec::new();
    push_str(&mut v, "ring-");
    push_decimal(&mut v, pid as u64);
    push_str(&mut v, "-");
    push_decimal_wide(&mut v, epoch_ns);
    push_str(&mut v, "-");
    push_str(&mut v, direction);
    match attempt {
        Some(a) => {
            push_str(&mut v, "-");
            push_decimal(&mut v, a as u64);
        },
        None => {},
    }
    push_str(&mut v, ".shm");
    assert(v@ =~= ring_file_name_text(pid, epoch_ns, direction@, attempt));
    string_of(&v)
}

/// The name of a wake-up semaphore: `/stellatune-sidecar-<pid>-<epoch ns>-<direction>`.
pub open spec fn semaphore_name_text(pid: u32, epoch_ns: u128, direction: Seq<char>) -> Seq<char> {
    "/stellatune-sidecar-"@ + dec_digits(pid as nat) + "-"@ + dec_digits(epoch_ns as nat) + "-"@ + direction
}

pub fn semaphore_name_for(pid: u32, epoch_ns: u128, direction: &str) -> (s: String)
    ensures
        s@ == semaphore_name_text(pid, epoch_ns, direction@),
{
    let mut v: Vec<char> = Vec::new();
    push_str(&mut v, "/stellatune-sidecar-");
    push_decimal(&mut v, pid as u64);
    push_str(&mut v, "-");
    push_decimal_wide(&mut v, epoch_ns);
    push_str(&mut v, "-");
    push_str(&mut v, direction);
    assert(v@ =~= semaphore_name_text(pid, epoch_ns, direction@));
    string_of(&v)
}

/// A semaphore name as the system takes it: trimmed, with a leading `/`;
/// blank names and names with a NUL are refused.
pub open spec fn semaphore_name_spec(name: Seq<char>) -> Option<Seq<char>> {
    let t = trim_s(name);
    if t.len() == 0 || t.contains('\0') {
        None
    } else if t[0] == '/' {
        Some(t)
    } else {
        Some(seq!['/'] + t)
    }
}

pub fn normalize_semaphore_name(name: &str) -> (r: Result<String, Error>)
    ensures
        match r {
            Ok(s) => semaphore_name_spec(name@) == Some(s@),
            Err(e) => semaphore_name_spec(name@) is None && (e matches Error::InvalidInput { message }
                && message@ == if trim_s(name@).len() == 0 {
                "shared-memory semaphore name is empty"@
            } else {
                "shared-memory semaphore name contains NUL"@
            }),
        },
{
    let v = chars_of(name);
    let (a, b) = trim_range(&v, 0, v.len());
    assert(v@.subrange(0, v@.len() as int) =~= v@);
    if a == b {
        return Err(Error::invalid_input("shared-memory semaphore name is empty"));
    }
    if range_contains(&v, a, b, '\0') {
        return Err(Error::invalid_input("shared-memory semaphore name contains NUL"));
    }
    if v[a] == '/' {
        return Ok(string_of_range(&v, a, b));
    }
    let mut out: Vec<char> = Vec::new();
    out.push('/');
    let mut i: usize = a;
    while i < b
        invariant
            a <= i <= b <= v@.len(),
            out@ == seq!['/'] + v@.subrange(a as int, i as int),
        decreases b - i,
    {
        out.push(v[i]);
        i = i + 1;
        assert(out@ =~= seq!['/'] + v@.subrange(a as int, i as int));
    }
    Ok(string_of(&out))
}

} // verus!
