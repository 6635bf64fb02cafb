//! Turning what the Docker API reports into display rows: container rows,
//! port and attribute lists, timestamps, log lines. The API values arrive
//! here as plain fields.
use vstd::prelude::*;

use crate::host::proc::{slice_chars, take_upto};
use crate::model::{
    ContainerDetails, ContainerMeta, ContainerRow, DockerEvent, ImageRow, LogLine, LogStream,
    Metrics, NetworkRow, ResourceDelta, VolumeRow,
};
use crate::text::{
    chars_of, decimal, lower, opt_str, piece_scan, pieces, push_all, push_decimal, push_str, split_on, strip_cr,
    string_from, string_of, string_views, to_lower, views,
};

verus! {

// ---------------------------------------------------------------------------
// Timestamps (RFC 3339, through the `time` crate)
// ---------------------------------------------------------------------------

#[verifier::external_type_specification]
#[verifier::external_body]
pub struct ExTimeParseError(time::error::Parse);

/// The Unix time of an RFC 3339 timestamp, as the `time` crate reads it
/// (`None` where it rejects the text).
pub uninterp spec fn rfc3339_seconds(text: Seq<char>) -> Option<i64>;

/// `time::OffsetDateTime::parse(text, &Rfc3339)` followed by
/// `unix_timestamp()`. The contract only names the result: it is the Unix
/// time the crate reads in `text`, or its parse error.
#[verifier::external_body]
fn rfc3339_unix(text: &str) -> (r: Result<i64, time::error::Parse>)
    ensures
        match r {
            Ok(v) => rfc3339_seconds(text@) == Some(v),
            Err(_) => rfc3339_seconds(text@) is None,
        },
{
    match time::OffsetDateTime::parse(text, &time::format_description::well_known::Rfc3339) {
        Ok(parsed) => Ok(parsed.unix_timestamp()),
        Err(error) => Err(error),
    }
}

/// A parsed Unix time with times before the epoch clamped to 0.
pub open spec fn clamped(parsed: Option<i64>) -> Option<i64> {
    match parsed {
        Some(v) => Some(
            if v < 0 {
                0
            } else {
                v
            },
        ),
        None => None,
    }
}

/// Unix time of an RFC 3339 timestamp, times before the epoch clamped to 0.
pub open spec fn timestamp_spec(text: Seq<char>) -> Option<i64> {
    clamped(rfc3339_seconds(text))
}

/// What `parse_timestamp` makes of a parse: a time before the epoch becomes
/// 0, a failed parse stays `None`.
pub fn clamp_to_epoch(parsed: Option<i64>) -> (r: Option<i64>)
    ensures
        r == clamped(parsed),
{
    match parsed {
        Some(v) => Some(
            if v < 0 {
                0
            } else {
                v
            },
        ),
        None => None,
    }
}

/// Unix time of an RFC 3339 timestamp (e.g. `2020-01-01T00:00:00Z`), times
/// before the epoch clamped to 0; `None` when the text is not one.
pub fn parse_timestamp(value: &str) -> (r: Option<i64>)
    ensures
        r == timestamp_spec(value@),
{
    let parsed = match rfc3339_unix(value) {
        Ok(v) => Some(v),
        Err(_) => None,
    };
    clamp_to_epoch(parsed)
}

// ---------------------------------------------------------------------------
// Joining
// ---------------------------------------------------------------------------

/// `parts.join(sep)`.
pub open spec fn join(parts: Seq<Seq<char>>, sep: Seq<char>) -> Seq<char>
    decreases parts.len(),
{
    if parts.len() == 0 {
        Seq::empty()
    } else if parts.len() == 1 {
        parts[0]
    } else {
        join(parts.drop_last(), sep) + sep + parts.last()
    }
}

fn join_exec(parts: &Vec<Vec<char>>, sep: &str) -> (r: Vec<char>)
    ensures
        r@ == join(views(parts@), sep@),
{
    let ghost pv = views(parts@);
    let mut out: Vec<char> = Vec::new();
    let mut i: usize = 0;
    while i < parts.len()
        invariant
            pv == views(parts@),
            i <= parts.len(),
            out@ == join(pv.take(i as int), sep@),
        decreases parts.len() - i,
    {
        assert(pv.take(i + 1).drop_last() == pv.take(i as int));
        if i > 0 {
            push_str(&mut out, sep);
        }
        push_all(&mut out, &parts[i]);
        proof {
            if i == 0 {
                assert(pv.take(1).len() == 1);
                assert(join(pv.take(0), sep@) =~= Seq::<char>::empty());
                assert(out@ =~= pv.take(1)[0]);
            }
        }
        i += 1;
    }
    assert(pv.take(parts.len() as int) == pv);
    out
}

// ---------------------------------------------------------------------------
// Event attributes
// ---------------------------------------------------------------------------

pub open spec fn pair_text(p: (Seq<char>, Seq<char>)) -> Seq<char> {
    p.0 + "="@ + p.1
}

pub open spec fn pair_views(v: Seq<(String, String)>) -> Seq<(Seq<char>, Seq<char>)> {
    v.map_values(|p: (String, String)| (p.0@, p.1@))
}

/// The first three `key=value` pairs, separated by spaces.
pub open spec fn attributes_text(pairs: Seq<(Seq<char>, Seq<char>)>) -> Seq<char> {
    join(take_upto(pairs, 3).map_values(|p: (Seq<char>, Seq<char>)| pair_text(p)), " "@)
}

/// The first three attributes of an event as `key=value`, space separated.
/// `attributes` lists them in the order the attribute map is walked.
pub fn format_attributes(attributes: &Vec<(String, String)>) -> (r: String)
    ensures
        r@ == attributes_text(pair_views(attributes@)),
{
    let ghost av = pair_views(attributes@);
    let n: usize = if attributes.len() < 3 {
        attributes.len()
    } else {
        3
    };
    let mut parts: Vec<Vec<char>> = Vec::new();
    let mut i: usize = 0;
    while i < n
        invariant
            av == pair_views(attributes@),
            n == take_upto(av, 3).len(),
            i <= n,
            views(parts@) == take_upto(av, 3).take(i as int).map_values(
                |p: (Seq<char>, Seq<char>)| pair_text(p),
            ),
        decreases n - i,
    {
        let mut item = chars_of(attributes[i].0.as_str());
        item.push('=');
        push_str(&mut item, attributes[i].1.as_str());
        let ghost before = views(parts@);
        parts.push(item);
        proof {
            reveal_strlit("=");
            assert(take_upto(av, 3)[i as int] == av[i as int]);
            assert(item@ =~= pair_text(av[i as int]));
            assert(views(parts@) =~= before.push(item@));
            assert(take_upto(av, 3).take(i + 1).map_values(
                |p: (Seq<char>, Seq<char>)| pair_text(p),
            ) =~= take_upto(av, 3).take(i as int).map_values(
                |p: (Seq<char>, Seq<char>)| pair_text(p),
            ).push(pair_text(av[i as int])));
        }
        i += 1;
    }
    assert(take_upto(av, 3).take(n as int) == take_upto(av, 3));
    string_of(&join_exec(&parts, " "))
}

// ---------------------------------------------------------------------------
// Ports
// ---------------------------------------------------------------------------

/// One published port of a container summary; `kind` is the protocol as the
/// API names it (e.g. `Tcp`).
pub struct PortSpec {
    pub private_port: u16,
    pub public_port: Option<u16>,
    pub kind: Option<String>,
}

/// `public:private/protocol`, with `-` for an unpublished port and the
/// protocol in lower case.
pub open spec fn port_text(p: PortSpec) -> Seq<char> {
    (match p.public_port {
        Some(v) => decimal(v as nat),
        None => "-"@,
    }) + ":"@ + decimal(p.private_port as nat) + "/"@ + (match p.kind {
        Some(k) => lower(k@),
        None => Seq::empty(),
    })
}

/// The published ports of a container, comma separated.
pub open spec fn ports_text(ports: Option<Seq<PortSpec>>) -> Seq<char> {
    match ports {
        Some(v) => join(v.map_values(|p: PortSpec| port_text(p)), ", "@),
        None => Seq::empty(),
    }
}

fn port_text_exec(p: &PortSpec) -> (r: Vec<char>)
    ensures
        r@ == port_text(*p),
{
    let mut v: Vec<char> = Vec::new();
    match p.public_port {
        Some(n) => push_decimal(&mut v, n as u64),
        None => push_str(&mut v, "-"),
    }
    push_str(&mut v, ":");
    push_decimal(&mut v, p.private_port as u64);
    push_str(&mut v, "/");
    match &p.kind {
        Some(k) => {
            let low = to_lower(&chars_of(k.as_str()));
            push_all(&mut v, &low);
        },
        None => {},
    }
    assert(v@ =~= port_text(*p));
    v
}

/// The published ports of a container as `public:private/protocol`, comma
/// separated; empty when the summary lists no ports.
pub fn format_ports(ports: &Option<Vec<PortSpec>>) -> (r: String)
    ensures
        r@ == ports_text(
            match ports {
                Some(v) => Some(v@),
                None => None,
            },
        ),
{
    match ports {
        None => String::new(),
        Some(list) => {
            let mut parts: Vec<Vec<char>> = Vec::new();
            let mut i: usize = 0;
            while i < list.len()
                invariant
                    i <= list.len(),
                    views(parts@) == list@.take(i as int).map_values(|p: PortSpec| port_text(p)),
                decreases list.len() - i,
            {
                let t = port_text_exec(&list[i]);
                let ghost before = views(parts@);
                parts.push(t);
                proof {
                    assert(views(parts@) =~= before.push(t@));
                    assert(list@.take(i + 1).map_values(|p: PortSpec| port_text(p)) =~= list@.take(
                        i as int,
                    ).map_values(|p: PortSpec| port_text(p)).push(port_text(list@[i as int])));
                }
                i += 1;
            }
            assert(list@.take(list.len() as int) == list@);
            string_of(&join_exec(&parts, ", "))
        },
    }
}

// ---------------------------------------------------------------------------
// Containers
// ---------------------------------------------------------------------------

/// `str::trim_start_matches(c)`: every leading `c` removed.
pub open spec fn trim_start_char(s: Seq<char>, c: char) -> Seq<char>
    decreases s.len(),
{
    if s.len() > 0 && s[0] == c {
        trim_start_char(s.drop_first(), c)
    } else {
        s
    }
}

fn trim_start_char_exec(s: &Vec<char>, c: char) -> (r: Vec<char>)
    ensures
        r@ == trim_start_char(s@, c),
{
    let mut start: usize = 0;
    assert(s@.skip(0) == s@);
    while start < s.len() && s[start] == c
        invariant
            start <= s.len(),
            trim_start_char(s@, c) == trim_start_char(s@.skip(start as int), c),
        decreases s.len() - start,
    {
        assert(s@.skip(start as int).drop_first() == s@.skip(start + 1));
        start += 1;
    }
    let n = s.len();
    let r = slice_chars(s, start, n);
    assert(r@ == s@.skip(start as int));
    r
}

/// The fields of a container summary the row is built from; `state` and the
/// port protocols as the API names them (e.g. `Running`).
pub struct SummaryFields {
    pub id: Option<String>,
    pub names: Option<Vec<String>>,
    pub image: Option<String>,
    pub state: Option<String>,
    pub status: Option<String>,
    pub created: Option<i64>,
    pub ports: Option<Vec<PortSpec>>,
}

pub open spec fn opt_text(v: Option<String>, default: Seq<char>) -> Seq<char> {
    match v {
        Some(s) => s@,
        None => default,
    }
}

/// Display name of a container: its first name without the leading `/`s,
/// else the first 12 characters of its id.
pub open spec fn row_name(summary: SummaryFields) -> Seq<char> {
    match summary.names {
        Some(names) if names@.len() > 0 => trim_start_char(names@[0]@, '/'),
        _ => take_upto(opt_text(summary.id, Seq::empty()), 12),
    }
}

/// What a row built from `summary`, a metrics pair and inspect metadata
/// holds.
pub open spec fn row_spec(
    summary: SummaryFields,
    stats: Option<(Metrics, ResourceDelta)>,
    meta: Option<ContainerMeta>,
    row: ContainerRow,
) -> bool {
    &&& row.id@ == opt_text(summary.id, Seq::empty())
    &&& row.name@ == row_name(summary)
    &&& row.image@ == opt_text(summary.image, "unknown"@)
    &&& row.state@ == (match summary.state {
        Some(s) => lower(s@),
        None => "unknown"@,
    })
    &&& row.status@ == opt_text(summary.status, Seq::empty())
    &&& row.health@ == (match meta {
        Some(m) => m.health@,
        None => "none"@,
    })
    &&& row.created == (match summary.created {
        Some(c) => c,
        None => 0,
    })
    &&& row.started == (match meta {
        Some(m) => m.started,
        None => 0,
    })
    &&& row.restart_count == (match meta {
        Some(m) => m.restart_count,
        None => 0,
    })
    &&& row.ports@ == ports_text(
        match summary.ports {
            Some(v) => Some(v@),
            None => None,
        },
    )
    &&& row.metrics == (match stats {
        Some(s) => s.0,
        None => Metrics::zero(),
    })
    &&& row.delta == (match stats {
        Some(s) => s.1,
        None => ResourceDelta::zero(),
    })
}

fn opt_string(v: &Option<String>, default: &str) -> (r: String)
    ensures
        r@ == opt_text(*v, default@),
{
    match v {
        Some(s) => string_from(s.as_str()),
        None => string_from(default),
    }
}

/// The row of a container: name, image, state, status, ports from its
/// summary; health, start time and restart count from its inspect metadata
/// (`none`, 0 and 0 without it); usage from its latest stats (zero without).
pub fn container_row(
    summary: &SummaryFields,
    stats: Option<(Metrics, ResourceDelta)>,
    meta: Option<&ContainerMeta>,
) -> (r: ContainerRow)
    ensures
        row_spec(
            *summary,
            stats,
            match meta {
                Some(m) => Some(*m),
                None => None,
            },
            r,
        ),
{
    proof {
        reveal_strlit("");
        assert(""@ =~= Seq::<char>::empty());
    }
    let id = opt_string(&summary.id, "");
    let name: Vec<char> = match &summary.names {
        Some(names) if names.len() > 0 => trim_start_char_exec(&chars_of(names[0].as_str()), '/'),
        _ => {
            let idc = chars_of(id.as_str());
            let n: usize = if idc.len() < 12 {
                idc.len()
            } else {
                12
            };
            let t = slice_chars(&idc, 0, n);
            assert(t@ == take_upto(idc@, 12));
            t
        },
    };
    let state = match &summary.state {
        Some(s) => string_of(&to_lower(&chars_of(s.as_str()))),
        None => string_from("unknown"),
    };
    let (health, started, restart_count) = match meta {
        Some(m) => (string_from(m.health.as_str()), m.started, m.restart_count),
        None => (string_from("none"), 0, 0),
    };
    let (metrics, delta) = match stats {
        Some(s) => s,
        None => (Metrics::new(), ResourceDelta::new()),
    };
    ContainerRow {
        id,
        name: string_of(&name),
        image: opt_string(&summary.image, "unknown"),
        state,
        status: opt_string(&summary.status, ""),
        health,
        created: match summary.created {
            Some(c) => c,
            None => 0,
        },
        started,
        restart_count,
        ports: format_ports(&summary.ports),
        metrics,
        delta,
    }
}

/// Inspect metadata: start time, restart count, health status (in lower
/// case; `none` without a health check).
pub open spec fn meta_spec(
    started_at: Option<Seq<char>>,
    restart_count: Option<i64>,
    health: Option<Seq<char>>,
    m: ContainerMeta,
) -> bool {
    &&& m.started == (match started_at {
        Some(t) => match timestamp_spec(t) {
            Some(v) => v,
            None => 0,
        },
        None => 0,
    })
    &&& m.restart_count == (match restart_count {
        Some(c) => c,
        None => 0,
    })
    &&& m.health@ == (match health {
        Some(h) => lower(h),
        None => "none"@,
    })
}

/// Each field of a container row comes from its own source: id, image and
/// status text from the same fields of the summary (empty, `unknown` and
/// empty when missing), the state lower-cased (`unknown` when missing), the
/// name from the first of the summary's names with its leading `/` dropped
/// (the id's first 12 characters when it has none), metrics and rates from
/// the stats sample (zero without one), and health, start time and restart
/// count from the inspect metadata (`none`, 0 and 0 without it).
pub proof fn lemma_container_row_fields(
    summary: SummaryFields,
    stats: Option<(Metrics, ResourceDelta)>,
    meta: Option<ContainerMeta>,
    row: ContainerRow,
)
    requires
        row_spec(summary, stats, meta, row),
    ensures
        summary.id matches Some(i) ==> row.id@ == i@,
        summary.id is None ==> row.id@.len() == 0,
        summary.image matches Some(s) ==> row.image@ == s@,
        summary.image is None ==> row.image@ == "unknown"@,
        summary.status matches Some(s) ==> row.status@ == s@,
        summary.status is None ==> row.status@.len() == 0,
        summary.state matches Some(s) ==> row.state@ == lower(s@),
        summary.state is None ==> row.state@ == "unknown"@,
        summary.created matches Some(c) ==> row.created == c,
        summary.names matches Some(v) ==> v@.len() > 0 ==> (v@[0]@.len() == 0 || v@[0]@[0]
            != '/') ==> row.name@ == v@[0]@,
        summary.names matches Some(v) ==> v@.len() > 0 ==> (v@[0]@.len() == 1 && v@[0]@[0]
            == '/') ==> row.name@.len() == 0,
        summary.names matches Some(v) ==> v@.len() > 0 ==> (v@[0]@.len() >= 2 && v@[0]@[0] == '/'
            && v@[0]@[1] != '/') ==> row.name@ == v@[0]@.drop_first(),
        summary.names is None ==> (summary.id matches Some(i) ==> row.name@ == (if i@.len()
            <= 12 {
            i@
        } else {
            i@.subrange(0, 12)
        })),
        stats matches Some((m, d)) ==> row.metrics == m && row.delta == d,
        stats is None ==> row.metrics.memory_bytes == 0 && row.metrics.cpu_percent_bits == 0,
        meta matches Some(m) ==> row.health@ == m.health@ && row.started == m.started
            && row.restart_count == m.restart_count,
        meta is None ==> row.health@ == "none"@ && row.started == 0 && row.restart_count == 0,
{
    match summary.names {
        Some(v) => {
            if v@.len() > 0 {
                let n = v@[0]@;
                if n.len() >= 1 && n[0] == '/' {
                    let t = n.drop_first();
                    assert(trim_start_char(n, '/') == trim_start_char(t, '/'));
                    if t.len() > 0 && t[0] != '/' {
                        assert(trim_start_char(t, '/') == t);
                    }
                    if t.len() == 0 {
                        assert(trim_start_char(t, '/') == t);
                    }
                }
            }
        },
        None => {},
    }
}

/// Metadata from an inspect response: `started_at` as RFC 3339 text,
/// `health` as the API names the status (e.g. `Healthy`).
pub fn container_meta(
    started_at: Option<&str>,
    restart_count: Option<i64>,
    health: Option<&str>,
) -> (m: ContainerMeta)
    ensures
        meta_spec(
            opt_str(started_at),
            restart_count,
            opt_str(health),
            m,
        ),
{
    let started = match started_at {
        Some(t) => match parse_timestamp(t) {
            Some(v) => v,
            None => 0,
        },
        None => 0,
    };
    let health = match health {
        Some(h) => string_of(&to_lower(&chars_of(h))),
        None => string_from("none"),
    };
    ContainerMeta {
        started,
        restart_count: match restart_count {
            Some(c) => c,
            None => 0,
        },
        health,
    }
}

// ---------------------------------------------------------------------------
// Inspect details
// ---------------------------------------------------------------------------

/// One host binding of a published port.
pub struct HostBinding {
    pub host_ip: Option<String>,
    pub host_port: Option<String>,
}

/// A container port (e.g. `80/tcp`) and its host bindings.
pub struct PortBindings {
    pub container_port: String,
    pub bindings: Option<Vec<HostBinding>>,
}

/// Image, command and environment (`KEY=value` entries) of a container's
/// configuration.
pub struct InspectConfig {
    pub image: Option<String>,
    pub cmd: Option<Vec<String>>,
    pub env: Option<Vec<String>>,
}

/// Start time (RFC 3339), state and health status, the last two as the API
/// names them.
pub struct InspectState {
    pub started_at: Option<String>,
    pub status: Option<String>,
    pub health: Option<String>,
}

/// Published ports and the names of the attached networks.
pub struct InspectNetwork {
    pub ports: Option<Vec<PortBindings>>,
    pub networks: Option<Vec<String>>,
}

pub struct MountFields {
    pub source: Option<String>,
    pub destination: Option<String>,
}

/// The fields of an inspect response the details view is built from.
pub struct InspectFields {
    pub id: Option<String>,
    pub name: Option<String>,
    pub created: Option<String>,
    pub restart_count: Option<i64>,
    pub config: Option<InspectConfig>,
    pub state: Option<InspectState>,
    pub network: Option<InspectNetwork>,
    pub mounts: Option<Vec<MountFields>>,
}

/// `container_port -> host_ip:host_port`, missing parts empty.
pub open spec fn binding_text(container_port: Seq<char>, b: HostBinding) -> Seq<char> {
    container_port + " -> "@ + opt_text(b.host_ip, Seq::empty()) + ":"@ + opt_text(
        b.host_port,
        Seq::empty(),
    )
}

/// One line per host binding, port after port.
pub open spec fn port_lines(ports: Seq<PortBindings>) -> Seq<Seq<char>>
    decreases ports.len(),
{
    if ports.len() == 0 {
        Seq::empty()
    } else {
        let p = ports.last();
        port_lines(ports.drop_last()) + match p.bindings {
            Some(bs) => bs@.map_values(|b: HostBinding| binding_text(p.container_port@, b)),
            None => Seq::empty(),
        }
    }
}

/// The port lines of an inspect response; none unless it has both a
/// configuration and network settings.
pub open spec fn details_ports(f: InspectFields) -> Seq<Seq<char>> {
    match (f.config, f.network) {
        (Some(_), Some(n)) => match n.ports {
            Some(p) => port_lines(p@),
            None => Seq::empty(),
        },
        _ => Seq::empty(),
    }
}

/// `source -> destination`, missing parts empty.
pub open spec fn mount_text(m: MountFields) -> Seq<char> {
    opt_text(m.source, Seq::empty()) + " -> "@ + opt_text(m.destination, Seq::empty())
}

/// What the details view of an inspect response holds.
pub open spec fn details_spec(f: InspectFields, d: ContainerDetails) -> bool {
    &&& d.id@ == opt_text(f.id, Seq::empty())
    &&& d.name@ == trim_start_char(opt_text(f.name, Seq::empty()), '/')
    &&& d.image@ == (match f.config {
        Some(c) => opt_text(c.image, Seq::empty()),
        None => Seq::empty(),
    })
    &&& d.command@ == (match f.config {
        Some(c) => match c.cmd {
            Some(v) => join(string_views(v@), " "@),
            None => Seq::empty(),
        },
        None => Seq::empty(),
    })
    &&& d.created@ == opt_text(f.created, Seq::empty())
    &&& d.started@ == (match f.state {
        Some(s) => opt_text(s.started_at, Seq::empty()),
        None => Seq::empty(),
    })
    &&& d.status@ == (match f.state {
        Some(s) => opt_text(s.status, Seq::empty()),
        None => Seq::empty(),
    })
    &&& d.health@ == (match f.state {
        Some(s) => opt_text(s.health, "none"@),
        None => "none"@,
    })
    &&& d.restart_count == (match f.restart_count {
        Some(c) => c,
        None => 0,
    })
    &&& string_views(d.ports@) == details_ports(f)
    &&& string_views(d.mounts@) == (match f.mounts {
        Some(ms) => ms@.map_values(|m: MountFields| mount_text(m)),
        None => Seq::empty(),
    })
    &&& string_views(d.networks@) == (match f.network {
        Some(n) => match n.networks {
            Some(v) => string_views(v@),
            None => Seq::empty(),
        },
        None => Seq::empty(),
    })
}

fn opt_chars(v: &Option<String>) -> (r: Vec<char>)
    ensures
        r@ == opt_text(*v, Seq::empty()),
{
    match v {
        Some(s) => chars_of(s.as_str()),
        None => Vec::new(),
    }
}

fn push_port_lines(out: &mut Vec<String>, p: &PortBindings)
    ensures
        string_views(final(out)@) == string_views(old(out)@) + match p.bindings {
            Some(bs) => bs@.map_values(|b: HostBinding| binding_text(p.container_port@, b)),
            None => Seq::empty(),
        },
{
    match &p.bindings {
        None => {
            assert(string_views(out@) + Seq::<Seq<char>>::empty() =~= string_views(out@));
        },
        Some(bs) => {
            let ghost start = string_views(out@);
            let mut i: usize = 0;
            while i < bs.len()
                invariant
                    i <= bs.len(),
                    string_views(out@) == start + bs@.take(i as int).map_values(
                        |b: HostBinding| binding_text(p.container_port@, b),
                    ),
                decreases bs.len() - i,
            {
                let mut line = chars_of(p.container_port.as_str());
                push_str(&mut line, " -> ");
                push_all(&mut line, &opt_chars(&bs[i].host_ip));
                push_str(&mut line, ":");
                push_all(&mut line, &opt_chars(&bs[i].host_port));
                let ghost before = string_views(out@);
                let text = string_of(&line);
                out.push(text);
                proof {
                    assert(line@ =~= binding_text(p.container_port@, bs@[i as int]));
                    assert(string_views(out@) =~= before.push(text@));
                    assert(bs@.take(i + 1).map_values(
                        |b: HostBinding| binding_text(p.container_port@, b),
                    ) =~= bs@.take(i as int).map_values(
                        |b: HostBinding| binding_text(p.container_port@, b),
                    ).push(binding_text(p.container_port@, bs@[i as int])));
                }
                i += 1;
            }
            assert(bs@.take(bs.len() as int) == bs@);
        },
    }
}

fn port_lines_exec(ports: &Vec<PortBindings>) -> (r: Vec<String>)
    ensures
        string_views(r@) == port_lines(ports@),
{
    let mut out: Vec<String> = Vec::new();
    let mut i: usize = 0;
    while i < ports.len()
        invariant
            i <= ports.len(),
            string_views(out@) == port_lines(ports@.take(i as int)),
        decreases ports.len() - i,
    {
        assert(ports@.take(i + 1).drop_last() == ports@.take(i as int));
        push_port_lines(&mut out, &ports[i]);
        i += 1;
    }
    assert(ports@.take(ports.len() as int) == ports@);
    out
}

fn mount_lines_exec(mounts: &Vec<MountFields>) -> (r: Vec<String>)
    ensures
        string_views(r@) == mounts@.map_values(|m: MountFields| mount_text(m)),
{
    let mut out: Vec<String> = Vec::new();
    let mut i: usize = 0;
    while i < mounts.len()
        invariant
            i <= mounts.len(),
            string_views(out@) == mounts@.take(i as int).map_values(|m: MountFields| mount_text(m)),
        decreases mounts.len() - i,
    {
        let mut line = opt_chars(&mounts[i].source);
        push_str(&mut line, " -> ");
        push_all(&mut line, &opt_chars(&mounts[i].destination));
        let ghost before = string_views(out@);
        let text = string_of(&line);
        out.push(text);
        proof {
            assert(line@ =~= mount_text(mounts@[i as int]));
            assert(string_views(out@) =~= before.push(text@));
            assert(mounts@.take(i + 1).map_values(|m: MountFields| mount_text(m)) =~= mounts@.take(
                i as int,
            ).map_values(|m: MountFields| mount_text(m)).push(mount_text(mounts@[i as int])));
        }
        i += 1;
    }
    assert(mounts@.take(mounts.len() as int) == mounts@);
    out
}

fn copy_strings(v: &Vec<String>) -> (r: Vec<String>)
    ensures
        string_views(r@) == string_views(v@),
{
    let mut out: Vec<String> = Vec::new();
    let mut i: usize = 0;
    while i < v.len()
        invariant
            i <= v.len(),
            string_views(out@) == string_views(v@).take(i as int),
        decreases v.len() - i,
    {
        let ghost before = string_views(out@);
        let s = string_from(v[i].as_str());
        out.push(s);
        assert(string_views(out@) =~= before.push(s@));
        assert(string_views(v@).take(i + 1) =~= string_views(v@).take(i as int).push(v@[i as int]@));
        i += 1;
    }
    assert(string_views(v@).take(v.len() as int) == string_views(v@));
    out
}

fn join_strings(v: &Vec<String>, sep: &str) -> (r: String)
    ensures
        r@ == join(string_views(v@), sep@),
{
    let mut parts: Vec<Vec<char>> = Vec::new();
    let mut i: usize = 0;
    while i < v.len()
        invariant
            i <= v.len(),
            views(parts@) == string_views(v@).take(i as int),
        decreases v.len() - i,
    {
        let ghost before = views(parts@);
        let c = chars_of(v[i].as_str());
        parts.push(c);
        assert(views(parts@) =~= before.push(c@));
        assert(string_views(v@).take(i + 1) =~= string_views(v@).take(i as int).push(v@[i as int]@));
        i += 1;
    }
    assert(string_views(v@).take(v.len() as int) == string_views(v@));
    string_of(&join_exec(&parts, sep))
}

/// The details view of a container inspect response: the name without its
/// leading `/`s, the command joined by spaces, `none` without a health
/// status, one line per port binding and per mount.
pub fn details(fields: &InspectFields) -> (d: ContainerDetails)
    ensures
        details_spec(*fields, d),
{
    proof {
        reveal_strlit("");
        assert(""@ =~= Seq::<char>::empty());
    }
    let ports: Vec<String> = match (&fields.config, &fields.network) {
        (Some(_), Some(n)) => match &n.ports {
            Some(p) => port_lines_exec(p),
            None => Vec::new(),
        },
        _ => Vec::new(),
    };
    let (image, command) = match &fields.config {
        Some(c) => (
            opt_string(&c.image, ""),
            match &c.cmd {
                Some(v) => join_strings(v, " "),
                None => string_from(""),
            },
        ),
        None => (string_from(""), string_from("")),
    };
    let (started, status, health) = match &fields.state {
        Some(s) => (opt_string(&s.started_at, ""), opt_string(&s.status, ""), opt_string(&s.health, "none")),
        None => (string_from(""), string_from(""), string_from("none")),
    };
    let networks: Vec<String> = match &fields.network {
        Some(n) => match &n.networks {
            Some(v) => copy_strings(v),
            None => Vec::new(),
        },
        None => Vec::new(),
    };
    let mounts: Vec<String> = match &fields.mounts {
        Some(ms) => mount_lines_exec(ms),
        None => Vec::new(),
    };
    assert(string_views(Seq::<String>::empty()) =~= Seq::<Seq<char>>::empty());
    ContainerDetails {
        id: opt_string(&fields.id, ""),
        name: string_of(&trim_start_char_exec(&opt_chars(&fields.name), '/')),
        image,
        command,
        created: opt_string(&fields.created, ""),
        started,
        status,
        health,
        restart_count: match fields.restart_count {
            Some(c) => c,
            None => 0,
        },
        ports,
        mounts,
        networks,
    }
}

// ---------------------------------------------------------------------------
// Images, volumes, networks, events
// ---------------------------------------------------------------------------

/// The fields of an image summary the listing shows.
pub struct ImageFields {
    pub id: String,
    pub repo_tags: Vec<String>,
    pub size: i64,
    pub created: i64,
}

/// `f` with the container's environment replaced by `env` (a response
/// without a configuration has no environment to replace).
pub open spec fn with_environment(f: InspectFields, env: Option<Vec<String>>) -> InspectFields {
    InspectFields {
        config: match f.config {
            Some(c) => Some(InspectConfig { env, ..c }),
            None => None,
        },
        ..f
    }
}

/// Environment values are never shown: two inspect responses that differ
/// only in the container's environment give the same details.
pub proof fn lemma_details_hide_environment(
    f: InspectFields,
    env1: Option<Vec<String>>,
    env2: Option<Vec<String>>,
    d: ContainerDetails,
)
    ensures
        details_spec(with_environment(f, env1), d) == details_spec(with_environment(f, env2), d),
{
}

/// The row of an image; a negative size reads as 0.
pub fn image(fields: ImageFields) -> (r: ImageRow)
    ensures
        r.id == fields.id,
        r.tags == fields.repo_tags,
        r.size_bytes == (if fields.size < 0 {
            0
        } else {
            fields.size as u64
        }),
        r.created == fields.created,
{
    ImageRow {
        id: fields.id,
        tags: fields.repo_tags,
        size_bytes: if fields.size < 0 {
            0
        } else {
            fields.size as u64
        },
        created: fields.created,
    }
}

/// The fields of a volume the listing shows; `scope` as the API names it.
pub struct VolumeFields {
    pub name: String,
    pub driver: String,
    pub mountpoint: String,
    pub scope: Option<String>,
}

/// The row of a volume; no scope reads as empty.
pub fn volume(fields: VolumeFields) -> (r: VolumeRow)
    ensures
        r.name == fields.name,
        r.driver == fields.driver,
        r.mountpoint == fields.mountpoint,
        r.scope@ == opt_text(fields.scope, Seq::empty()),
{
    let scope = match fields.scope {
        Some(s) => s,
        None => String::new(),
    };
    VolumeRow { name: fields.name, driver: fields.driver, mountpoint: fields.mountpoint, scope }
}

pub struct NetworkFields {
    pub id: Option<String>,
    pub name: Option<String>,
    pub driver: Option<String>,
    pub scope: Option<String>,
}

/// The row of a network: missing fields read as empty; the container count
/// is not reported by the listing call and reads as 0.
pub fn network(fields: NetworkFields) -> (r: NetworkRow)
    ensures
        r.id@ == opt_text(fields.id, Seq::empty()),
        r.name@ == opt_text(fields.name, Seq::empty()),
        r.driver@ == opt_text(fields.driver, Seq::empty()),
        r.scope@ == opt_text(fields.scope, Seq::empty()),
        r.containers == 0,
{
    proof {
        reveal_strlit("");
        assert(""@ =~= Seq::<char>::empty());
    }
    NetworkRow {
        id: opt_string(&fields.id, ""),
        name: opt_string(&fields.name, ""),
        driver: opt_string(&fields.driver, ""),
        scope: opt_string(&fields.scope, ""),
        containers: 0,
    }
}

/// The fields of a daemon event; `kind` as the API names the event type,
/// the attributes in the order the attribute map is walked.
pub struct EventFields {
    pub time: Option<i64>,
    pub kind: Option<String>,
    pub action: Option<String>,
    pub actor_id: Option<String>,
    pub attributes: Option<Vec<(String, String)>>,
}

/// An event row: missing fields read as 0 or empty; the attributes as the
/// first three `key=value` pairs.
pub fn event(fields: &EventFields) -> (e: DockerEvent)
    ensures
        e.timestamp == (match fields.time {
            Some(t) => t,
            None => 0,
        }),
        e.kind@ == opt_text(fields.kind, Seq::empty()),
        e.action@ == opt_text(fields.action, Seq::empty()),
        e.actor@ == opt_text(fields.actor_id, Seq::empty()),
        e.attributes@ == (match fields.attributes {
            Some(a) => attributes_text(pair_views(a@)),
            None => Seq::empty(),
        }),
{
    proof {
        reveal_strlit("");
        assert(""@ =~= Seq::<char>::empty());
    }
    DockerEvent {
        timestamp: match fields.time {
            Some(t) => t,
            None => 0,
        },
        kind: opt_string(&fields.kind, ""),
        action: opt_string(&fields.action, ""),
        actor: opt_string(&fields.actor_id, ""),
        attributes: match &fields.attributes {
            Some(a) => format_attributes(a),
            None => string_from(""),
        },
    }
}

// ---------------------------------------------------------------------------
// Logs
// ---------------------------------------------------------------------------

/// Longest log line kept, in characters.
pub const MAX_LOG_LINE_CHARS: usize = 4096;

pub open spec fn nonempty_piece() -> spec_fn(Seq<char>) -> bool {
    |l: Seq<char>| l.len() > 0
}

/// The lines of a log chunk: split at `\n`, empty pieces dropped, a trailing
/// `\r` removed, each capped at 4096 characters.
pub open spec fn log_texts(text: Seq<char>) -> Seq<Seq<char>> {
    pieces(text, '\n').filter(nonempty_piece()).map_values(
        |l: Seq<char>| take_upto(strip_cr(l), 4096),
    )
}

pub open spec fn line_texts(v: Seq<LogLine>) -> Seq<Seq<char>> {
    v.map_values(|l: LogLine| l.text@)
}

/// Split a chunk of container output into log lines of `stream`.
pub fn log_lines(stream: LogStream, text: &str) -> (r: Vec<LogLine>)
    ensures
        line_texts(r@) == log_texts(text@),
        forall|i: int| 0 <= i < r@.len() ==> (#[trigger] r@[i]).stream == stream,
{
    let pieces_v = split_on(&chars_of(text), '\n');
    let ghost pv = views(pieces_v@);
    let mut out: Vec<LogLine> = Vec::new();
    let mut i: usize = 0;
    while i < pieces_v.len()
        invariant
            pv == views(pieces_v@),
            pv == pieces(text@, '\n'),
            i <= pieces_v.len(),
            line_texts(out@) == pv.take(i as int).filter(nonempty_piece()).map_values(
                |l: Seq<char>| take_upto(strip_cr(l), 4096),
            ),
            forall|k: int| 0 <= k < out@.len() ==> (#[trigger] out@[k]).stream == stream,
        decreases pieces_v.len() - i,
    {
        proof {
            reveal_with_fuel(Seq::filter, 1);
            assert(pv.take(i + 1).drop_last() == pv.take(i as int));
        }
        let piece = &pieces_v[i];
        if piece.len() > 0 {
            let end: usize = if piece[piece.len() - 1] == '\r' {
                piece.len() - 1
            } else {
                piece.len()
            };
            let keep: usize = if end < MAX_LOG_LINE_CHARS {
                end
            } else {
                MAX_LOG_LINE_CHARS
            };
            let t = slice_chars(piece, 0, keep);
            assert(t@ == take_upto(strip_cr(pv[i as int]), 4096));
            let line = LogLine { stream, text: string_of(&t) };
            let ghost before = line_texts(out@);
            let ghost kept = pv.take(i as int).filter(nonempty_piece());
            out.push(line);
            proof {
                assert(line_texts(out@) =~= before.push(t@));
                assert(pv.take(i + 1).filter(nonempty_piece()) == kept.push(pv[i as int]));
                assert(kept.push(pv[i as int]).map_values(
                    |l: Seq<char>| take_upto(strip_cr(l), 4096),
                ) =~= kept.map_values(|l: Seq<char>| take_upto(strip_cr(l), 4096)).push(t@));
            }
        }
        i += 1;
    }
    assert(pv.take(pieces_v.len() as int) == pv);
    out
}

proof fn lemma_piece_scan_has_no_separator(s: Seq<char>, sep: char)
    ensures
        forall|i: int|
            0 <= i < piece_scan(s, sep).0.len() ==> !(#[trigger] piece_scan(s, sep).0[i]).contains(
                sep,
            ),
        !piece_scan(s, sep).1.contains(sep),
    decreases s.len(),
{
    if s.len() > 0 {
        lemma_piece_scan_has_no_separator(s.drop_last(), sep);
        let prev = piece_scan(s.drop_last(), sep);
        if s.last() != sep {
            assert forall|k: int| 0 <= k < prev.1.push(s.last()).len() implies prev.1.push(
                s.last(),
            )[k] != sep by {
                if k < prev.1.len() {
                    assert(prev.1.push(s.last())[k] == prev.1[k]);
                }
            }
        } else {
            assert(!Seq::<char>::empty().contains(sep));
        }
    }
}

proof fn lemma_filter_keeps(s: Seq<Seq<char>>, keep: spec_fn(Seq<char>) -> bool, c: char)
    requires
        forall|i: int| 0 <= i < s.len() ==> !(#[trigger] s[i]).contains(c),
    ensures
        forall|i: int| 0 <= i < s.filter(keep).len() ==> !(#[trigger] s.filter(keep)[i]).contains(c),
    decreases s.len(),
{
    reveal(Seq::filter);
    if s.len() > 0 {
        lemma_filter_keeps(s.drop_last(), keep, c);
        assert(forall|i: int| 0 <= i < s.drop_last().len() ==> s.drop_last()[i] == s[i]);
        let f = s.drop_last().filter(keep);
        if keep(s.last()) {
            assert forall|i: int| 0 <= i < f.push(s.last()).len() implies !(#[trigger] f.push(
                s.last(),
            )[i]).contains(c) by {
                if i < f.len() {
                    assert(f.push(s.last())[i] == f[i]);
                }
            }
        }
    }
}

/// Every log line is at most 4096 characters long and holds no line break.
pub proof fn lemma_log_lines_are_bounded(text: Seq<char>)
    ensures
        forall|i: int|
            0 <= i < log_texts(text).len() ==> (#[trigger] log_texts(text)[i]).len() <= 4096
                && !log_texts(text)[i].contains('\n'),
{
    let ps = pieces(text, '\n');
    lemma_piece_scan_has_no_separator(text, '\n');
    assert forall|i: int| 0 <= i < ps.len() implies !(#[trigger] ps[i]).contains('\n') by {
        let r = piece_scan(text, '\n');
        if i < r.0.len() {
            assert(ps[i] == r.0[i]);
        } else {
            assert(ps[i] == r.1);
        }
    }
    lemma_filter_keeps(ps, nonempty_piece(), '\n');
    let kept = ps.filter(nonempty_piece());
    assert forall|i: int| 0 <= i < log_texts(text).len() implies (#[trigger] log_texts(text)[i]).len()
        <= 4096 && !log_texts(text)[i].contains('\n') by {
        let l = kept[i];
        let line = take_upto(strip_cr(l), 4096);
        assert(log_texts(text)[i] == line);
        assert forall|k: int| 0 <= k < line.len() implies line[k] != '\n' by {
            assert(line[k] == l[k]);
        }
    }
}

} // verus!
