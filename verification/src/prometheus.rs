//! The counts of a node in the text format of Prometheus.
use vstd::prelude::*;
use crate::circuit_breaker::{CircuitBreaker, CircuitState, PeerCircuit};
use crate::metrics::{percentile_95, HashMetrics, Metrics, ProcessInfo};
use crate::paths::texts;
use crate::text::{chars_of, decimal, occurs, occurs_at, push_decimal};

verus! {

/// How a character is written inside a label: a backslash, a quote and a line break are escaped.
pub open spec fn escaped_char(c: char) -> Seq<char> {
    if c == '\\' {
        seq!['\\', '\\']
    } else if c == '"' {
        seq!['\\', '"']
    } else if c == '\n' {
        seq!['\\', 'n']
    } else {
        seq![c]
    }
}

/// How a text is written inside a label.
pub open spec fn escaped(s: Seq<char>) -> Seq<char>
    decreases s.len(),
{
    if s.len() == 0 {
        Seq::empty()
    } else {
        escaped(s.drop_last()) + escaped_char(s.last())
    }
}

/// How a text is written inside a label.
pub fn escape_label_value(s: &str) -> (r: String)
    ensures
        r@ == escaped(s@),
{
    let v = chars_of(s);
    let mut out = String::new();
    let mut i: usize = 0;
    assert(out@ =~= escaped(v@.take(0)));
    while i < v.len()
        invariant
            i <= v@.len(),
            out@ == escaped(v@.take(i as int)),
        decreases v@.len() - i,
    {
        let c = v[i];
        if c == '\\' {
            out.push('\\');
            out.push('\\');
        } else if c == '"' {
            out.push('\\');
            out.push('"');
        } else if c == '\n' {
            out.push('\\');
            out.push('n');
        } else {
            out.push(c);
        }
        proof {
            assert(v@.take(i + 1).drop_last() =~= v@.take(i as int));
            assert(v@.take(i + 1).last() == c);
            assert(out@ =~= escaped(v@.take(i + 1)));
        }
        i = i + 1;
    }
    assert(v@.take(i as int) =~= s@);
    out
}

/// What the text inside a label stands for.
pub open spec fn unescaped(t: Seq<char>) -> Seq<char>
    decreases t.len(),
{
    if t.len() == 0 {
        Seq::empty()
    } else if t[0] == '\\' && t.len() >= 2 {
        seq![
            if t[1] == 'n' {
                '\n'
            } else {
                t[1]
            },
        ] + unescaped(t.skip(2))
    } else {
        seq![t[0]] + unescaped(t.drop_first())
    }
}

proof fn lemma_escaped_front(s: Seq<char>)
    requires
        s.len() > 0,
    ensures
        escaped(s) == escaped_char(s[0]) + escaped(s.drop_first()),
    decreases s.len(),
{
    if s.len() == 1 {
        assert(s.drop_last() =~= Seq::<char>::empty());
        assert(s.drop_first() =~= Seq::<char>::empty());
        assert(escaped(s.drop_last()) + escaped_char(s.last()) =~= escaped_char(s[0]) + escaped(
            s.drop_first(),
        ));
    } else {
        lemma_escaped_front(s.drop_last());
        assert(s.drop_last().drop_first() =~= s.drop_first().drop_last());
        assert(s.drop_first().last() == s.last());
        assert(escaped(s) =~= escaped_char(s[0]) + escaped(s.drop_first()));
    }
}

/// A label says what was put into it: no two texts are written alike, no line break stands in it,
/// and no quote that is not escaped.
pub proof fn law_label_is_faithful(s: Seq<char>)
    ensures
        unescaped(escaped(s)) == s,
        !escaped(s).contains('\n'),
        forall|i: int|
            0 <= i < escaped(s).len() && #[trigger] escaped(s)[i] == '"' ==> i > 0 && escaped(s)[i
                - 1] == '\\',
    decreases s.len(),
{
    if s.len() == 0 {
        assert(unescaped(escaped(s)) =~= s);
    } else {
        let c = s[0];
        let rest = s.drop_first();
        let t = escaped(s);
        lemma_escaped_front(s);
        law_label_is_faithful(rest);
        let e = escaped_char(c);
        assert(e.len() == 1 || e.len() == 2);
        assert(t.skip(e.len() as int) =~= escaped(rest));
        assert(t.drop_first() =~= t.skip(1));
        assert(t[0] == e[0]);
        if e.len() == 2 {
            assert(t[1] == e[1]);
            assert(unescaped(t) == seq![c] + unescaped(escaped(rest)));
        } else {
            assert(unescaped(t) == seq![c] + unescaped(escaped(rest)));
        }
        assert(seq![c] + rest =~= s);
        assert forall|i: int| 0 <= i < t.len() implies #[trigger] t[i] != '\n' by {
            if i >= e.len() {
                assert(t[i] == escaped(rest)[i - e.len()]);
                assert(escaped(rest).contains(t[i]));
            }
        }
        assert forall|i: int| 0 <= i < t.len() && #[trigger] t[i] == '"' implies i > 0 && t[i - 1]
            == '\\' by {
            if i >= e.len() {
                let j = i - e.len();
                assert(t[i] == escaped(rest)[j]);
                assert(j > 0 && escaped(rest)[j - 1] == '\\');
                assert(t[i - 1] == escaped(rest)[j - 1]);
            }
        }
    }
}

/// The two lines before the samples of a family.
pub open spec fn family_header(name: Seq<char>, help: Seq<char>, kind: Seq<char>) -> Seq<char> {
    "# HELP "@ + name + " "@ + help + "\n# TYPE "@ + name + " "@ + kind + "\n"@
}

/// A line with a value.
pub open spec fn sample(name: Seq<char>, labels: Seq<char>, value: nat) -> Seq<char> {
    name + labels + " "@ + decimal(value) + "\n"@
}

/// A family with one sample and no labels.
pub open spec fn single(
    name: Seq<char>,
    help: Seq<char>,
    kind: Seq<char>,
    value: nat,
) -> Seq<char> {
    family_header(name, help, kind) + sample(name, Seq::empty(), value)
}

fn push_header(out: &mut String, name: &str, help: &str, kind: &str)
    ensures
        final(out)@ == old(out)@ + family_header(name@, help@, kind@),
{
    out.append("# HELP ");
    out.append(name);
    out.append(" ");
    out.append(help);
    out.append("\n# TYPE ");
    out.append(name);
    out.append(" ");
    out.append(kind);
    out.append("\n");
    assert(out@ =~= old(out)@ + family_header(name@, help@, kind@));
}

fn push_sample(out: &mut String, name: &str, labels: &str, value: u64)
    ensures
        final(out)@ == old(out)@ + sample(name@, labels@, value as nat),
{
    out.append(name);
    out.append(labels);
    out.append(" ");
    push_decimal(out, value);
    out.append("\n");
    assert(out@ =~= old(out)@ + sample(name@, labels@, value as nat));
}

fn push_single(out: &mut String, name: &str, help: &str, kind: &str, value: u64)
    ensures
        final(out)@ == old(out)@ + single(name@, help@, kind@, value as nat),
{
    push_header(out, name, help, kind);
    let none = String::new();
    push_sample(out, name, none.as_str(), value);
    assert(out@ =~= old(out)@ + single(name@, help@, kind@, value as nat));
}

/// The versions of this program and of llama.cpp, as labels of a constant.
pub open spec fn build_info_text(version: Seq<char>, llama_cpp_version: Seq<char>) -> Seq<char> {
    family_header(
        "proxy_build_info"@,
        "Build information for the llamesh proxy; value is always 1."@,
        "gauge"@,
    ) + "proxy_build_info{version=\""@ + version + "\",llama_cpp_version=\""@ + escaped(
        llama_cpp_version,
    ) + "\"} 1\n"@
}

fn push_build_info(out: &mut String, version: &str, llama_cpp_version: &str)
    ensures
        final(out)@ == old(out)@ + build_info_text(version@, llama_cpp_version@),
{
    push_header(
        out,
        "proxy_build_info",
        "Build information for the llamesh proxy; value is always 1.",
        "gauge",
    );
    out.append("proxy_build_info{version=\"");
    out.append(version);
    out.append("\",llama_cpp_version=\"");
    out.append(escape_label_value(llama_cpp_version).as_str());
    out.append("\"} 1\n");
    assert(out@ =~= old(out)@ + build_info_text(version@, llama_cpp_version@));
}

/// The requests of a node.
pub open spec fn requests_text(m: Metrics) -> Seq<char> {
    single(
        "proxy_requests_total"@,
        "Total number of requests received."@,
        "counter"@,
        m.requests_total as nat,
    ) + single(
        "proxy_errors_total"@,
        "Total number of request errors."@,
        "counter"@,
        m.errors_total as nat,
    ) + single(
        "proxy_current_requests"@,
        "Number of requests currently in flight."@,
        "gauge"@,
        m.current_requests as nat,
    )
}

fn push_requests(out: &mut String, m: &Metrics)
    ensures
        final(out)@ == old(out)@ + requests_text(*m),
{
    push_single(
        out,
        "proxy_requests_total",
        "Total number of requests received.",
        "counter",
        m.requests_total,
    );
    push_single(
        out,
        "proxy_errors_total",
        "Total number of request errors.",
        "counter",
        m.errors_total,
    );
    push_single(
        out,
        "proxy_current_requests",
        "Number of requests currently in flight.",
        "gauge",
        m.current_requests,
    );
    assert(out@ =~= old(out)@ + requests_text(*m));
}

/// The resources of a node.
pub open spec fn resources_text(m: Metrics) -> Seq<char> {
    single(
        "proxy_node_llamesh_vram_mb"@,
        "VRAM attributed to llamesh-managed instances."@,
        "gauge"@,
        m.node_llamesh_vram_mb as nat,
    ) + single(
        "proxy_node_llamesh_sysmem_mb"@,
        "System memory attributed to llamesh-managed instances."@,
        "gauge"@,
        m.node_llamesh_sysmem_mb as nat,
    ) + single(
        "proxy_node_external_vram_mb"@,
        "Device VRAM used outside llamesh-managed instances."@,
        "gauge"@,
        m.node_external_vram_mb as nat,
    ) + single(
        "proxy_node_effective_vram_mb"@,
        "VRAM used for admission control after external usage is included."@,
        "gauge"@,
        m.node_effective_vram_mb as nat,
    ) + single(
        "proxy_node_effective_sysmem_mb"@,
        "System memory used for admission control."@,
        "gauge"@,
        m.node_effective_sysmem_mb as nat,
    ) + single(
        "proxy_node_device_vram_used_mb"@,
        "Device-wide used VRAM reported by GPU telemetry."@,
        "gauge"@,
        m.node_device_vram_used_mb as nat,
    ) + single(
        "proxy_node_device_vram_total_mb"@,
        "Device-wide total VRAM reported by GPU telemetry."@,
        "gauge"@,
        m.node_device_vram_total_mb as nat,
    ) + single(
        "proxy_node_gpu_telemetry_available"@,
        "Whether device-wide GPU telemetry is available (1=true, 0=false)."@,
        "gauge"@,
        if m.node_gpu_telemetry_available {
            1
        } else {
            0
        },
    ) + single(
        "proxy_node_active_instances"@,
        "Number of llama-server instances currently managed on this node."@,
        "gauge"@,
        m.node_active_instances as nat,
    ) + single(
        "proxy_node_max_vram_mb"@,
        "Configured VRAM admission guardrail in MB (max_vram_mb); a new instance is spawned only while effective VRAM plus its estimated usage stays within this limit."@,
        "gauge"@,
        m.node_max_vram_mb as nat,
    ) + single(
        "proxy_node_max_sysmem_mb"@,
        "Configured system-memory admission guardrail in MB (max_sysmem_mb)."@,
        "gauge"@,
        m.node_max_sysmem_mb as nat,
    )
}

#[verifier::rlimit(60)]
fn push_resources(out: &mut String, m: &Metrics)
    ensures
        final(out)@ == old(out)@ + resources_text(*m),
{
    push_single(
        out,
        "proxy_node_llamesh_vram_mb",
        "VRAM attributed to llamesh-managed instances.",
        "gauge",
        m.node_llamesh_vram_mb,
    );
    push_single(
        out,
        "proxy_node_llamesh_sysmem_mb",
        "System memory attributed to llamesh-managed instances.",
        "gauge",
        m.node_llamesh_sysmem_mb,
    );
    push_single(
        out,
        "proxy_node_external_vram_mb",
        "Device VRAM used outside llamesh-managed instances.",
        "gauge",
        m.node_external_vram_mb,
    );
    push_single(
        out,
        "proxy_node_effective_vram_mb",
        "VRAM used for admission control after external usage is included.",
        "gauge",
        m.node_effective_vram_mb,
    );
    push_single(
        out,
        "proxy_node_effective_sysmem_mb",
        "System memory used for admission control.",
        "gauge",
        m.node_effective_sysmem_mb,
    );
    push_single(
        out,
        "proxy_node_device_vram_used_mb",
        "Device-wide used VRAM reported by GPU telemetry.",
        "gauge",
        m.node_device_vram_used_mb,
    );
    push_single(
        out,
        "proxy_node_device_vram_total_mb",
        "Device-wide total VRAM reported by GPU telemetry.",
        "gauge",
        m.node_device_vram_total_mb,
    );
    let available: u64 = if m.node_gpu_telemetry_available {
        1
    } else {
        0
    };
    push_single(
        out,
        "proxy_node_gpu_telemetry_available",
        "Whether device-wide GPU telemetry is available (1=true, 0=false).",
        "gauge",
        available,
    );
    push_single(
        out,
        "proxy_node_active_instances",
        "Number of llama-server instances currently managed on this node.",
        "gauge",
        m.node_active_instances,
    );
    push_single(
        out,
        "proxy_node_max_vram_mb",
        "Configured VRAM admission guardrail in MB (max_vram_mb); a new instance is spawned only while effective VRAM plus its estimated usage stays within this limit.",
        "gauge",
        m.node_max_vram_mb,
    );
    push_single(
        out,
        "proxy_node_max_sysmem_mb",
        "Configured system-memory admission guardrail in MB (max_sysmem_mb).",
        "gauge",
        m.node_max_sysmem_mb,
    );
    assert(out@ =~= old(out)@ + resources_text(*m));
}

/// The requests that wait.
pub open spec fn waiting_text(m: Metrics) -> Seq<char> {
    single(
        "proxy_queue_pending_tokens"@,
        "Number of pending queue tokens."@,
        "gauge"@,
        m.queue_pending_tokens as nat,
    ) + single(
        "proxy_queue_wait_total_ms"@,
        "Total queue wait time in milliseconds."@,
        "counter"@,
        m.queue_wait_total_ms as nat,
    ) + single(
        "proxy_queue_wait_count"@,
        "Total number of requests that waited in queue."@,
        "counter"@,
        m.queue_wait_count as nat,
    ) + single(
        "proxy_queue_length"@,
        "Current number of requests waiting in model queues."@,
        "gauge"@,
        m.queue_length as nat,
    )
}

fn push_waiting(out: &mut String, m: &Metrics)
    ensures
        final(out)@ == old(out)@ + waiting_text(*m),
{
    push_single(
        out,
        "proxy_queue_pending_tokens",
        "Number of pending queue tokens.",
        "gauge",
        m.queue_pending_tokens,
    );
    push_single(
        out,
        "proxy_queue_wait_total_ms",
        "Total queue wait time in milliseconds.",
        "counter",
        m.queue_wait_total_ms,
    );
    push_single(
        out,
        "proxy_queue_wait_count",
        "Total number of requests that waited in queue.",
        "counter",
        m.queue_wait_count,
    );
    push_single(
        out,
        "proxy_queue_length",
        "Current number of requests waiting in model queues.",
        "gauge",
        m.queue_length,
    );
    assert(out@ =~= old(out)@ + waiting_text(*m));
}

/// The requests that were dropped from queues, by reason.
pub open spec fn drops_text(m: Metrics) -> Seq<char> {
    family_header(
        "proxy_queue_drops_total"@,
        "Requests dropped from model queues, by reason."@,
        "counter"@,
    ) + sample("proxy_queue_drops_total"@, "{reason=\"full\"}"@, m.queue_drops_full as nat)
        + sample(
        "proxy_queue_drops_total"@,
        "{reason=\"timeout\"}"@,
        m.queue_drops_timeout as nat,
    ) + sample(
        "proxy_queue_drops_total"@,
        "{reason=\"global_limit\"}"@,
        m.queue_drops_global_limit as nat,
    )
}

fn push_drops(out: &mut String, m: &Metrics)
    ensures
        final(out)@ == old(out)@ + drops_text(*m),
{
    push_header(
        out,
        "proxy_queue_drops_total",
        "Requests dropped from model queues, by reason.",
        "counter",
    );
    push_sample(out, "proxy_queue_drops_total", "{reason=\"full\"}", m.queue_drops_full);
    push_sample(out, "proxy_queue_drops_total", "{reason=\"timeout\"}", m.queue_drops_timeout);
    push_sample(
        out,
        "proxy_queue_drops_total",
        "{reason=\"global_limit\"}",
        m.queue_drops_global_limit,
    );
    assert(out@ =~= old(out)@ + drops_text(*m));
}

/// What the process could not do.
pub open spec fn process_text(p: ProcessInfo) -> Seq<char> {
    single(
        "proxy_token_counting_disabled_total"@,
        "Times token counting was disabled."@,
        "counter"@,
        p.token_counting_disabled_total as nat,
    ) + single(
        "proxy_skipped_stream_cleanups_total"@,
        "Stream cleanups skipped during shutdown."@,
        "counter"@,
        p.skipped_stream_cleanups_total as nat,
    )
}

fn push_process(out: &mut String, p: &ProcessInfo)
    ensures
        final(out)@ == old(out)@ + process_text(*p),
{
    push_single(
        out,
        "proxy_token_counting_disabled_total",
        "Times token counting was disabled.",
        "counter",
        p.token_counting_disabled_total,
    );
    push_single(
        out,
        "proxy_skipped_stream_cleanups_total",
        "Stream cleanups skipped during shutdown.",
        "counter",
        p.skipped_stream_cleanups_total,
    );
    assert(out@ =~= old(out)@ + process_text(*p));
}

/// The number of a state.
pub open spec fn state_number(s: CircuitState) -> u64 {
    match s {
        CircuitState::Closed => 0,
        CircuitState::Open => 1,
        CircuitState::HalfOpen => 2,
    }
}

/// One line for each of some circuits.
pub open spec fn circuit_samples(entries: Seq<(String, PeerCircuit)>) -> Seq<char>
    decreases entries.len(),
{
    if entries.len() == 0 {
        Seq::empty()
    } else {
        circuit_samples(entries.drop_last()) + sample(
            "proxy_circuit_breaker_state"@,
            "{peer=\""@ + escaped(entries.last().0@) + "\"}"@,
            state_number(entries.last().1.state) as nat,
        )
    }
}

/// The circuits of all peers, where there is a breaker.
pub open spec fn circuits_text(cb: Option<&CircuitBreaker>) -> Seq<char> {
    match cb {
        Some(b) => family_header(
            "proxy_circuit_breaker_state"@,
            "Circuit breaker state per peer (0=closed, 1=open, 2=half-open)."@,
            "gauge"@,
        ) + circuit_samples(b.circuits.entries@),
        None => Seq::empty(),
    }
}

fn push_circuits(out: &mut String, cb: Option<&CircuitBreaker>)
    requires
        cb is Some ==> cb->0.wf(),
    ensures
        final(out)@ == old(out)@ + circuits_text(cb),
{
    let ghost start = out@;
    if let Some(b) = cb {
        push_header(
            out,
            "proxy_circuit_breaker_state",
            "Circuit breaker state per peer (0=closed, 1=open, 2=half-open).",
            "gauge",
        );
        let ghost head = out@;
        let ghost entries = b.circuits.entries@;
        let states = b.get_all_states();
        let mut i: usize = 0;
        assert(out@ =~= head + circuit_samples(entries.take(0)));
        while i < states.entries.len()
            invariant
                i <= states.entries@.len(),
                states.entries@.len() == entries.len(),
                forall|j: int|
                    0 <= j < entries.len() ==> (#[trigger] states.entries@[j]).0@ == entries[j].0@
                        && states.entries@[j].1 == entries[j].1.state,
                out@ == head + circuit_samples(entries.take(i as int)),
            decreases states.entries@.len() - i,
        {
            let number: u64 = match states.entries[i].1 {
                CircuitState::Closed => 0,
                CircuitState::Open => 1,
                CircuitState::HalfOpen => 2,
            };
            let mut labels = "{peer=\"".to_owned();
            labels.append(escape_label_value(states.entries[i].0.as_str()).as_str());
            labels.append("\"}");
            push_sample(out, "proxy_circuit_breaker_state", labels.as_str(), number);
            proof {
                let more = entries.take(i + 1);
                assert(more.drop_last() =~= entries.take(i as int));
                assert(more.last() == entries[i as int]);
                assert(states.entries@[i as int].0@ == entries[i as int].0@);
                assert(out@ =~= head + circuit_samples(more));
            }
            i = i + 1;
        }
        assert(entries.take(i as int) =~= entries);
    }
    assert(out@ =~= start + circuits_text(cb));
}

/// Texts with a comma between each two.
pub open spec fn comma_joined(names: Seq<Seq<char>>) -> Seq<char>
    decreases names.len(),
{
    if names.len() == 0 {
        Seq::empty()
    } else if names.len() == 1 {
        names[0]
    } else {
        comma_joined(names.drop_last()) + ","@ + names.last()
    }
}

fn join_names(names: &Vec<String>) -> (r: String)
    ensures
        r@ == comma_joined(texts(names@)),
{
    let mut out = String::new();
    let mut i: usize = 0;
    let ghost all = texts(names@);
    assert(out@ =~= comma_joined(all.take(0)));
    while i < names.len()
        invariant
            i <= names@.len(),
            all == texts(names@),
            out@ == comma_joined(all.take(i as int)),
        decreases names@.len() - i,
    {
        if i > 0 {
            out.append(",");
        }
        out.append(names[i].as_str());
        proof {
            let more = all.take(i + 1);
            assert(more.drop_last() =~= all.take(i as int));
            assert(more.last() == names@[i as int]@);
            assert(out@ =~= comma_joined(more));
        }
        i = i + 1;
    }
    assert(all.take(i as int) =~= all);
    out
}

/// The labels of launch arguments: their hash and the names they are known by.
pub open spec fn hash_labels(hash: Seq<char>, names: Seq<Seq<char>>) -> Seq<char> {
    "{hash=\""@ + escaped(hash) + "\",names=\""@ + escaped(comma_joined(names)) + "\"}"@
}

/// One line for each label and its value.
pub open spec fn labelled_samples(
    name: Seq<char>,
    labels: Seq<Seq<char>>,
    values: Seq<u64>,
) -> Seq<char>
    decreases labels.len(),
{
    if labels.len() == 0 {
        Seq::empty()
    } else {
        labelled_samples(name, labels.drop_last(), values.drop_last()) + sample(
            name,
            labels.last(),
            values.last() as nat,
        )
    }
}

/// A family with a sample for each label.
pub open spec fn family(
    name: Seq<char>,
    help: Seq<char>,
    kind: Seq<char>,
    labels: Seq<Seq<char>>,
    values: Seq<u64>,
) -> Seq<char> {
    family_header(name, help, kind) + labelled_samples(name, labels, values)
}

fn push_family(
    out: &mut String,
    name: &str,
    help: &str,
    kind: &str,
    labels: &Vec<String>,
    values: &Vec<u64>,
)
    requires
        labels@.len() == values@.len(),
    ensures
        final(out)@ == old(out)@ + family(name@, help@, kind@, texts(labels@), values@),
{
    let ghost start = out@;
    push_header(out, name, help, kind);
    let ghost head = out@;
    let ghost all = texts(labels@);
    let mut i: usize = 0;
    assert(out@ =~= head + labelled_samples(name@, all.take(0), values@.take(0)));
    while i < labels.len()
        invariant
            i <= labels@.len(),
            labels@.len() == values@.len(),
            all == texts(labels@),
            out@ == head + labelled_samples(
                name@,
                all.take(i as int),
                values@.take(i as int),
            ),
        decreases labels@.len() - i,
    {
        push_sample(out, name, labels[i].as_str(), values[i]);
        proof {
            let more = all.take(i + 1);
            let vals = values@.take(i + 1);
            assert(more.drop_last() =~= all.take(i as int));
            assert(vals.drop_last() =~= values@.take(i as int));
            assert(more.last() == labels@[i as int]@);
            assert(out@ =~= head + labelled_samples(name@, more, vals));
        }
        i = i + 1;
    }
    assert(all.take(i as int) =~= all);
    assert(values@.take(i as int) =~= values@);
    assert(out@ =~= start + family(name@, help@, kind@, all, values@));
}

/// The labels of all launch arguments.
pub open spec fn all_labels(entries: Seq<(String, HashMetrics)>) -> Seq<Seq<char>> {
    entries.map_values(
        |e: (String, HashMetrics)| hash_labels(e.0@, texts(e.1.display_names@)),
    )
}

/// The families of the counts for launch arguments. All samples of a family stand together, after
/// its header.
pub open spec fn hashes_text(entries: Seq<(String, HashMetrics)>) -> Seq<char> {
    let labels = all_labels(entries);
    family(
        "proxy_hash_requests_total"@,
        "Total requests per model/profile hash."@,
        "counter"@,
        labels,
        entries.map_values(|e: (String, HashMetrics)| e.1.requests_total),
    ) + family(
        "proxy_hash_errors_total"@,
        "Total errors per model/profile hash."@,
        "counter"@,
        labels,
        entries.map_values(|e: (String, HashMetrics)| e.1.errors_total),
    ) + family(
        "proxy_hash_tokens_generated_total"@,
        "Total tokens generated per hash."@,
        "counter"@,
        labels,
        entries.map_values(|e: (String, HashMetrics)| e.1.tokens_generated_total),
    ) + family(
        "proxy_hash_total_latency_ms"@,
        "Total latency in milliseconds per hash."@,
        "counter"@,
        labels,
        entries.map_values(|e: (String, HashMetrics)| e.1.total_latency_ms),
    ) + family(
        "proxy_hash_p95_latency_ms"@,
        "P95 latency in milliseconds (last 100 samples)."@,
        "gauge"@,
        labels,
        entries.map_values(|e: (String, HashMetrics)| percentile_95(e.1.latency_samples@)),
    ) + family(
        "proxy_hash_peak_vram_mb"@,
        "Peak VRAM usage in MB per hash."@,
        "gauge"@,
        labels,
        entries.map_values(|e: (String, HashMetrics)| e.1.peak_vram_mb),
    ) + family(
        "proxy_hash_peak_sysmem_mb"@,
        "Peak system memory usage in MB per hash."@,
        "gauge"@,
        labels,
        entries.map_values(|e: (String, HashMetrics)| e.1.peak_sysmem_mb),
    )
}

fn push_hashes(out: &mut String, m: &Metrics)
    ensures
        final(out)@ == old(out)@ + hashes_text(m.hash_metrics.entries@),
{
    let ghost start = out@;
    let ghost entries = m.hash_metrics.entries@;
    let mut labels: Vec<String> = Vec::new();
    let mut requests_total: Vec<u64> = Vec::new();
    let mut errors_total: Vec<u64> = Vec::new();
    let mut tokens_generated_total: Vec<u64> = Vec::new();
    let mut total_latency_ms: Vec<u64> = Vec::new();
    let mut p95: Vec<u64> = Vec::new();
    let mut peak_vram_mb: Vec<u64> = Vec::new();
    let mut peak_sysmem_mb: Vec<u64> = Vec::new();
    let mut i: usize = 0;
    while i < m.hash_metrics.entries.len()
        invariant
            i <= entries.len(),
            entries == m.hash_metrics.entries@,
            labels@.len() == i,
            requests_total@.len() == i,
            errors_total@.len() == i,
            tokens_generated_total@.len() == i,
            total_latency_ms@.len() == i,
            p95@.len() == i,
            peak_vram_mb@.len() == i,
            peak_sysmem_mb@.len() == i,
            forall|j: int|
                0 <= j < i ==> (#[trigger] labels@[j])@ == hash_labels(
                    entries[j].0@,
                    texts(entries[j].1.display_names@),
                ),
            forall|j: int| 0 <= j < i ==> #[trigger] requests_total@[j] == entries[j].1.requests_total,
            forall|j: int| 0 <= j < i ==> #[trigger] errors_total@[j] == entries[j].1.errors_total,
            forall|j: int| 0 <= j < i ==> #[trigger] tokens_generated_total@[j] == entries[j].1.tokens_generated_total,
            forall|j: int| 0 <= j < i ==> #[trigger] total_latency_ms@[j] == entries[j].1.total_latency_ms,
            forall|j: int| 0 <= j < i ==> #[trigger] p95@[j] == percentile_95(entries[j].1.latency_samples@),
            forall|j: int| 0 <= j < i ==> #[trigger] peak_vram_mb@[j] == entries[j].1.peak_vram_mb,
            forall|j: int| 0 <= j < i ==> #[trigger] peak_sysmem_mb@[j] == entries[j].1.peak_sysmem_mb,
        decreases entries.len() - i,
    {
        let hash = m.hash_metrics.entries[i].0.as_str();
        let h = &m.hash_metrics.entries[i].1;
        let mut label = "{hash=\"".to_owned();
        label.append(escape_label_value(hash).as_str());
        label.append("\",names=\"");
        label.append(escape_label_value(join_names(&h.display_names).as_str()).as_str());
        label.append("\"}");
        labels.push(label);
        requests_total.push(h.requests_total);
        errors_total.push(h.errors_total);
        tokens_generated_total.push(h.tokens_generated_total);
        total_latency_ms.push(h.total_latency_ms);
        p95.push(h.p95_latency_ms());
        peak_vram_mb.push(h.peak_vram_mb);
        peak_sysmem_mb.push(h.peak_sysmem_mb);
        i = i + 1;
    }
    assert(texts(labels@) =~= all_labels(entries));
    assert(requests_total@ =~= entries.map_values(|e: (String, HashMetrics)| e.1.requests_total));
    assert(errors_total@ =~= entries.map_values(|e: (String, HashMetrics)| e.1.errors_total));
    assert(tokens_generated_total@ =~= entries.map_values(|e: (String, HashMetrics)| e.1.tokens_generated_total));
    assert(total_latency_ms@ =~= entries.map_values(|e: (String, HashMetrics)| e.1.total_latency_ms));
    assert(p95@ =~= entries.map_values(|e: (String, HashMetrics)| percentile_95(e.1.latency_samples@)));
    assert(peak_vram_mb@ =~= entries.map_values(|e: (String, HashMetrics)| e.1.peak_vram_mb));
    assert(peak_sysmem_mb@ =~= entries.map_values(|e: (String, HashMetrics)| e.1.peak_sysmem_mb));
    push_family(
        out,
        "proxy_hash_requests_total",
        "Total requests per model/profile hash.",
        "counter",
        &labels,
        &requests_total,
    );
    push_family(
        out,
        "proxy_hash_errors_total",
        "Total errors per model/profile hash.",
        "counter",
        &labels,
        &errors_total,
    );
    push_family(
        out,
        "proxy_hash_tokens_generated_total",
        "Total tokens generated per hash.",
        "counter",
        &labels,
        &tokens_generated_total,
    );
    push_family(
        out,
        "proxy_hash_total_latency_ms",
        "Total latency in milliseconds per hash.",
        "counter",
        &labels,
        &total_latency_ms,
    );
    push_family(
        out,
        "proxy_hash_p95_latency_ms",
        "P95 latency in milliseconds (last 100 samples).",
        "gauge",
        &labels,
        &p95,
    );
    push_family(
        out,
        "proxy_hash_peak_vram_mb",
        "Peak VRAM usage in MB per hash.",
        "gauge",
        &labels,
        &peak_vram_mb,
    );
    push_family(
        out,
        "proxy_hash_peak_sysmem_mb",
        "Peak system memory usage in MB per hash.",
        "gauge",
        &labels,
        &peak_sysmem_mb,
    );
    assert(out@ =~= start + hashes_text(entries));
}

/// The counts of a node in the text format of Prometheus.
pub open spec fn prometheus_text(
    m: Metrics,
    cb: Option<&CircuitBreaker>,
    llama_cpp_version: Seq<char>,
    process: ProcessInfo,
) -> Seq<char> {
    build_info_text(process.version@, llama_cpp_version) + requests_text(m) + resources_text(m)
        + waiting_text(m) + drops_text(m) + process_text(process) + circuits_text(cb)
        + hashes_text(m.hash_metrics.entries@)
}

/// The counts of a node in the text format of Prometheus.
pub fn render_prometheus_with_circuit_breaker(
    metrics: &Metrics,
    circuit_breaker: Option<&CircuitBreaker>,
    llama_cpp_version: &str,
    process: &ProcessInfo,
) -> (r: String)
    requires
        circuit_breaker is Some ==> circuit_breaker->0.wf(),
    ensures
        r@ == prometheus_text(*metrics, circuit_breaker, llama_cpp_version@, *process),
{
    let mut out = String::new();
    push_build_info(&mut out, process.version.as_str(), llama_cpp_version);
    push_requests(&mut out, metrics);
    push_resources(&mut out, metrics);
    push_waiting(&mut out, metrics);
    push_drops(&mut out, metrics);
    push_process(&mut out, process);
    push_circuits(&mut out, circuit_breaker);
    push_hashes(&mut out, metrics);
    assert(out@ =~= prometheus_text(*metrics, circuit_breaker, llama_cpp_version@, *process));
    out
}

/// The samples of a family stand together: a family is its header followed by one line for each
/// label, and nothing else.
pub proof fn law_family_is_contiguous(
    name: Seq<char>,
    help: Seq<char>,
    kind: Seq<char>,
    labels: Seq<Seq<char>>,
    values: Seq<u64>,
    label: Seq<char>,
    value: u64,
)
    requires
        labels.len() == values.len(),
    ensures
        family(name, help, kind, Seq::empty(), Seq::empty()) == family_header(name, help, kind),
        family(name, help, kind, labels.push(label), values.push(value)) == family(
            name,
            help,
            kind,
            labels,
            values,
        ) + sample(name, label, value as nat),
{
    assert(labels.push(label).drop_last() =~= labels);
    assert(values.push(value).drop_last() =~= values);
    assert(family(name, help, kind, Seq::empty(), Seq::empty()) =~= family_header(
        name,
        help,
        kind,
    ));
    assert(family(name, help, kind, labels.push(label), values.push(value)) =~= family(
        name,
        help,
        kind,
        labels,
        values,
    ) + sample(name, label, value as nat));
}

proof fn lemma_occurs_here(before: Seq<char>, p: Seq<char>, after: Seq<char>)
    ensures
        occurs(before + p + after, p),
{
    let s = before + p + after;
    assert(s.subrange(before.len() as int, before.len() as int + p.len() as int) =~= p);
    assert(occurs_at(s, p, before.len() as int));
}

broadcast proof fn lemma_occurs_in_sum(a: Seq<char>, b: Seq<char>, p: Seq<char>)
    requires
        occurs(a, p) || occurs(b, p),
    ensures
        #[trigger] occurs(a + b, p),
{
    if occurs(a, p) {
        let i = choose|i: int| occurs_at(a, p, i);
        assert((a + b).subrange(i, i + p.len()) =~= a.subrange(i, i + p.len()));
        assert(occurs_at(a + b, p, i));
    } else {
        let i = choose|i: int| occurs_at(b, p, i);
        assert((a + b).subrange(a.len() + i, a.len() + i + p.len()) =~= b.subrange(i, i + p.len()));
        assert(occurs_at(a + b, p, a.len() + i));
    }
}

/// Whether a text shows a value by a name: the line with the two, right after the lines that say
/// what it is and of which kind.
pub open spec fn shows(
    text: Seq<char>,
    name: Seq<char>,
    help: Seq<char>,
    kind: Seq<char>,
    value: nat,
) -> bool {
    occurs(
        text,
        "# HELP "@ + name + " "@ + help + "\n# TYPE "@ + name + " "@ + kind + "\n"@ + name + " "@
            + decimal(value) + "\n"@,
    )
}

proof fn lemma_single_shows(name: Seq<char>, help: Seq<char>, kind: Seq<char>, value: nat)
    ensures
        shows(single(name, help, kind, value), name, help, kind, value),
{
    let p = "# HELP "@ + name + " "@ + help + "\n# TYPE "@ + name + " "@ + kind + "\n"@ + name
        + " "@ + decimal(value) + "\n"@;
    let s = single(name, help, kind, value);
    let none = Seq::<char>::empty();
    assert(s =~= none + p + none);
    lemma_occurs_here(none, p, none);
}

/// The page shows each count of the requests of a node by its name.
#[verifier::rlimit(60)]
#[verifier::spinoff_prover]
pub proof fn law_page_shows_requests(
    m: Metrics,
    cb: Option<&CircuitBreaker>,
    llama_cpp_version: Seq<char>,
    process: ProcessInfo,
)
    ensures
        ({
            let text = prometheus_text(m, cb, llama_cpp_version, process);
            &&& shows(text, "proxy_requests_total"@, "Total number of requests received."@, "counter"@, m.requests_total as nat)
            &&& shows(text, "proxy_errors_total"@, "Total number of request errors."@, "counter"@, m.errors_total as nat)
            &&& shows(text, "proxy_current_requests"@, "Number of requests currently in flight."@, "gauge"@, m.current_requests as nat)
        }),
{
    broadcast use lemma_occurs_in_sum;

    lemma_single_shows("proxy_requests_total"@, "Total number of requests received."@, "counter"@, m.requests_total as nat);
    lemma_single_shows("proxy_errors_total"@, "Total number of request errors."@, "counter"@, m.errors_total as nat);
    lemma_single_shows("proxy_current_requests"@, "Number of requests currently in flight."@, "gauge"@, m.current_requests as nat);
}

/// The page shows each resource of a node by its name.
#[verifier::rlimit(60)]
#[verifier::spinoff_prover]
pub proof fn law_page_shows_resources(
    m: Metrics,
    cb: Option<&CircuitBreaker>,
    llama_cpp_version: Seq<char>,
    process: ProcessInfo,
)
    ensures
        ({
            let text = prometheus_text(m, cb, llama_cpp_version, process);
            &&& shows(text, "proxy_node_llamesh_vram_mb"@, "VRAM attributed to llamesh-managed instances."@, "gauge"@, m.node_llamesh_vram_mb as nat)
            &&& shows(text, "proxy_node_llamesh_sysmem_mb"@, "System memory attributed to llamesh-managed instances."@, "gauge"@, m.node_llamesh_sysmem_mb as nat)
            &&& shows(text, "proxy_node_external_vram_mb"@, "Device VRAM used outside llamesh-managed instances."@, "gauge"@, m.node_external_vram_mb as nat)
            &&& shows(text, "proxy_node_effective_vram_mb"@, "VRAM used for admission control after external usage is included."@, "gauge"@, m.node_effective_vram_mb as nat)
            &&& shows(text, "proxy_node_effective_sysmem_mb"@, "System memory used for admission control."@, "gauge"@, m.node_effective_sysmem_mb as nat)
            &&& shows(text, "proxy_node_device_vram_used_mb"@, "Device-wide used VRAM reported by GPU telemetry."@, "gauge"@, m.node_device_vram_used_mb as nat)
            &&& shows(text, "proxy_node_device_vram_total_mb"@, "Device-wide total VRAM reported by GPU telemetry."@, "gauge"@, m.node_device_vram_total_mb as nat)
            &&& shows(text, "proxy_node_gpu_telemetry_available"@, "Whether device-wide GPU telemetry is available (1=true, 0=false)."@, "gauge"@, if m.node_gpu_telemetry_available { 1nat } else { 0nat })
            &&& shows(text, "proxy_node_active_instances"@, "Number of llama-server instances currently managed on this node."@, "gauge"@, m.node_active_instances as nat)
            &&& shows(text, "proxy_node_max_vram_mb"@, "Configured VRAM admission guardrail in MB (max_vram_mb); a new instance is spawned only while effective VRAM plus its estimated usage stays within this limit."@, "gauge"@, m.node_max_vram_mb as nat)
            &&& shows(text, "proxy_node_max_sysmem_mb"@, "Configured system-memory admission guardrail in MB (max_sysmem_mb)."@, "gauge"@, m.node_max_sysmem_mb as nat)
        }),
{
    broadcast use lemma_occurs_in_sum;

    lemma_single_shows("proxy_node_llamesh_vram_mb"@, "VRAM attributed to llamesh-managed instances."@, "gauge"@, m.node_llamesh_vram_mb as nat);
    lemma_single_shows("proxy_node_llamesh_sysmem_mb"@, "System memory attributed to llamesh-managed instances."@, "gauge"@, m.node_llamesh_sysmem_mb as nat);
    lemma_single_shows("proxy_node_external_vram_mb"@, "Device VRAM used outside llamesh-managed instances."@, "gauge"@, m.node_external_vram_mb as nat);
    lemma_single_shows("proxy_node_effective_vram_mb"@, "VRAM used for admission control after external usage is included."@, "gauge"@, m.node_effective_vram_mb as nat);
    lemma_single_shows("proxy_node_effective_sysmem_mb"@, "System memory used for admission control."@, "gauge"@, m.node_effective_sysmem_mb as nat);
    lemma_single_shows("proxy_node_device_vram_used_mb"@, "Device-wide used VRAM reported by GPU telemetry."@, "gauge"@, m.node_device_vram_used_mb as nat);
    lemma_single_shows("proxy_node_device_vram_total_mb"@, "Device-wide total VRAM reported by GPU telemetry."@, "gauge"@, m.node_device_vram_total_mb as nat);
    lemma_single_shows("proxy_node_gpu_telemetry_available"@, "Whether device-wide GPU telemetry is available (1=true, 0=false)."@, "gauge"@, if m.node_gpu_telemetry_available { 1nat } else { 0nat });
    lemma_single_shows("proxy_node_active_instances"@, "Number of llama-server instances currently managed on this node."@, "gauge"@, m.node_active_instances as nat);
    lemma_single_shows("proxy_node_max_vram_mb"@, "Configured VRAM admission guardrail in MB (max_vram_mb); a new instance is spawned only while effective VRAM plus its estimated usage stays within this limit."@, "gauge"@, m.node_max_vram_mb as nat);
    lemma_single_shows("proxy_node_max_sysmem_mb"@, "Configured system-memory admission guardrail in MB (max_sysmem_mb)."@, "gauge"@, m.node_max_sysmem_mb as nat);
}

/// The page shows each count of the requests that wait, and of what the process could not do, by
/// its name.
#[verifier::rlimit(60)]
#[verifier::spinoff_prover]
pub proof fn law_page_shows_queues(
    m: Metrics,
    cb: Option<&CircuitBreaker>,
    llama_cpp_version: Seq<char>,
    process: ProcessInfo,
)
    ensures
        ({
            let text = prometheus_text(m, cb, llama_cpp_version, process);
            &&& shows(text, "proxy_queue_pending_tokens"@, "Number of pending queue tokens."@, "gauge"@, m.queue_pending_tokens as nat)
            &&& shows(text, "proxy_queue_wait_total_ms"@, "Total queue wait time in milliseconds."@, "counter"@, m.queue_wait_total_ms as nat)
            &&& shows(text, "proxy_queue_wait_count"@, "Total number of requests that waited in queue."@, "counter"@, m.queue_wait_count as nat)
            &&& shows(text, "proxy_queue_length"@, "Current number of requests waiting in model queues."@, "gauge"@, m.queue_length as nat)
            &&& shows(text, "proxy_token_counting_disabled_total"@, "Times token counting was disabled."@, "counter"@, process.token_counting_disabled_total as nat)
            &&& shows(text, "proxy_skipped_stream_cleanups_total"@, "Stream cleanups skipped during shutdown."@, "counter"@, process.skipped_stream_cleanups_total as nat)
        }),
{
    broadcast use lemma_occurs_in_sum;

    lemma_single_shows("proxy_queue_pending_tokens"@, "Number of pending queue tokens."@, "gauge"@, m.queue_pending_tokens as nat);
    lemma_single_shows("proxy_queue_wait_total_ms"@, "Total queue wait time in milliseconds."@, "counter"@, m.queue_wait_total_ms as nat);
    lemma_single_shows("proxy_queue_wait_count"@, "Total number of requests that waited in queue."@, "counter"@, m.queue_wait_count as nat);
    lemma_single_shows("proxy_queue_length"@, "Current number of requests waiting in model queues."@, "gauge"@, m.queue_length as nat);
    lemma_single_shows("proxy_token_counting_disabled_total"@, "Times token counting was disabled."@, "counter"@, process.token_counting_disabled_total as nat);
    lemma_single_shows("proxy_skipped_stream_cleanups_total"@, "Stream cleanups skipped during shutdown."@, "counter"@, process.skipped_stream_cleanups_total as nat);
}

/// The page shows the requests that were dropped by their reason, one line for each after the lines
/// that say what they are, and it shows both versions.
#[verifier::rlimit(60)]
#[verifier::spinoff_prover]
pub proof fn law_page_shows_drops_and_versions(
    m: Metrics,
    cb: Option<&CircuitBreaker>,
    llama_cpp_version: Seq<char>,
    process: ProcessInfo,
)
    ensures
        ({
            let text = prometheus_text(m, cb, llama_cpp_version, process);
            &&& occurs(
                text,
                "# HELP "@ + "proxy_queue_drops_total"@ + " "@
                    + "Requests dropped from model queues, by reason."@ + "\n# TYPE "@
                    + "proxy_queue_drops_total"@ + " "@ + "counter"@ + "\n"@
                    + "proxy_queue_drops_total"@ + "{reason=\"full\"}"@ + " "@ + decimal(
                    m.queue_drops_full as nat,
                ) + "\n"@ + "proxy_queue_drops_total"@ + "{reason=\"timeout\"}"@ + " "@ + decimal(
                    m.queue_drops_timeout as nat,
                ) + "\n"@ + "proxy_queue_drops_total"@ + "{reason=\"global_limit\"}"@ + " "@
                    + decimal(m.queue_drops_global_limit as nat) + "\n"@,
            )
            &&& occurs(
                text,
                "# HELP "@ + "proxy_build_info"@ + " "@
                    + "Build information for the llamesh proxy; value is always 1."@ + "\n# TYPE "@
                    + "proxy_build_info"@ + " "@ + "gauge"@ + "\n"@
                    + "proxy_build_info{version=\""@ + process.version@
                    + "\",llama_cpp_version=\""@ + escaped(llama_cpp_version) + "\"} 1\n"@,
            )
        }),
{
    broadcast use lemma_occurs_in_sum;

    let none = Seq::<char>::empty();
    let drops = "# HELP "@ + "proxy_queue_drops_total"@ + " "@
        + "Requests dropped from model queues, by reason."@ + "\n# TYPE "@
        + "proxy_queue_drops_total"@ + " "@ + "counter"@ + "\n"@ + "proxy_queue_drops_total"@
        + "{reason=\"full\"}"@ + " "@ + decimal(m.queue_drops_full as nat) + "\n"@
        + "proxy_queue_drops_total"@ + "{reason=\"timeout\"}"@ + " "@ + decimal(
        m.queue_drops_timeout as nat,
    ) + "\n"@ + "proxy_queue_drops_total"@ + "{reason=\"global_limit\"}"@ + " "@ + decimal(
        m.queue_drops_global_limit as nat,
    ) + "\n"@;
    assert(drops_text(m) =~= none + drops + none);
    lemma_occurs_here(none, drops, none);
    let info = "# HELP "@ + "proxy_build_info"@ + " "@
        + "Build information for the llamesh proxy; value is always 1."@ + "\n# TYPE "@
        + "proxy_build_info"@ + " "@ + "gauge"@ + "\n"@ + "proxy_build_info{version=\""@
        + process.version@ + "\",llama_cpp_version=\""@ + escaped(llama_cpp_version) + "\"} 1\n"@;
    assert(build_info_text(process.version@, llama_cpp_version) =~= none + info + none);
    lemma_occurs_here(none, info, none);
}

proof fn lemma_circuit_line(entries: Seq<(String, PeerCircuit)>, i: int)
    requires
        0 <= i < entries.len(),
    ensures
        occurs(
            circuit_samples(entries),
            "proxy_circuit_breaker_state"@ + ("{peer=\""@ + escaped(entries[i].0@) + "\"}"@) + " "@
                + decimal(state_number(entries[i].1.state) as nat) + "\n"@,
        ),
    decreases entries.len(),
{
    broadcast use lemma_occurs_in_sum;

    let line = "proxy_circuit_breaker_state"@ + ("{peer=\""@ + escaped(entries[i].0@) + "\"}"@)
        + " "@ + decimal(state_number(entries[i].1.state) as nat) + "\n"@;
    if i == entries.len() - 1 {
        let none = Seq::<char>::empty();
        assert(none + line + none =~= line);
        lemma_occurs_here(none, line, none);
    } else {
        lemma_circuit_line(entries.drop_last(), i);
        assert(entries.drop_last()[i] == entries[i]);
    }
}

/// The page shows the state of each circuit as a number, 0 for a closed one, 1 for an open one and 2
/// for a half-open one, beside the peer; and without a breaker it is the page of the rest.
#[verifier::rlimit(60)]
#[verifier::spinoff_prover]
pub proof fn law_page_shows_circuits(
    m: Metrics,
    cb: &CircuitBreaker,
    llama_cpp_version: Seq<char>,
    process: ProcessInfo,
    i: int,
)
    requires
        0 <= i < cb.circuits.entries@.len(),
    ensures
        ({
            let text = prometheus_text(m, Some(cb), llama_cpp_version, process);
            let (peer, circuit) = cb.circuits.entries@[i];
            let number: nat = if circuit.state == CircuitState::Closed {
                0
            } else if circuit.state == CircuitState::Open {
                1
            } else {
                2
            };
            occurs(
                text,
                "proxy_circuit_breaker_state"@ + ("{peer=\""@ + escaped(peer@) + "\"}"@) + " "@
                    + decimal(number) + "\n"@,
            )
        }),
        occurs(
            prometheus_text(m, Some(cb), llama_cpp_version, process),
            "# HELP "@ + "proxy_circuit_breaker_state"@ + " "@
                + "Circuit breaker state per peer (0=closed, 1=open, 2=half-open)."@ + "\n# TYPE "@
                + "proxy_circuit_breaker_state"@ + " "@ + "gauge"@ + "\n"@,
        ),
        prometheus_text(m, Some(cb), llama_cpp_version, process).len() > prometheus_text(
            m,
            None,
            llama_cpp_version,
            process,
        ).len(),
{
    broadcast use lemma_occurs_in_sum;

    lemma_circuit_line(cb.circuits.entries@, i);
    let none = Seq::<char>::empty();
    let head = "# HELP "@ + "proxy_circuit_breaker_state"@ + " "@
        + "Circuit breaker state per peer (0=closed, 1=open, 2=half-open)."@ + "\n# TYPE "@
        + "proxy_circuit_breaker_state"@ + " "@ + "gauge"@ + "\n"@;
    assert(family_header(
        "proxy_circuit_breaker_state"@,
        "Circuit breaker state per peer (0=closed, 1=open, 2=half-open)."@,
        "gauge"@,
    ) =~= none + head + none);
    lemma_occurs_here(none, head, none);
    reveal_strlit("\n");
}

proof fn lemma_family_line(
    name: Seq<char>,
    labels: Seq<Seq<char>>,
    values: Seq<u64>,
    i: int,
)
    requires
        labels.len() == values.len(),
        0 <= i < labels.len(),
    ensures
        occurs(
            labelled_samples(name, labels, values),
            name + labels[i] + " "@ + decimal(values[i] as nat) + "\n"@,
        ),
    decreases labels.len(),
{
    broadcast use lemma_occurs_in_sum;

    let line = name + labels[i] + " "@ + decimal(values[i] as nat) + "\n"@;
    if i == labels.len() - 1 {
        let none = Seq::<char>::empty();
        assert(none + line + none =~= line);
        lemma_occurs_here(none, line, none);
    } else {
        lemma_family_line(name, labels.drop_last(), values.drop_last(), i);
    }
}

/// Whether a text shows a value of some launch arguments by the name of a family.
pub open spec fn shows_hash(
    text: Seq<char>,
    name: Seq<char>,
    hash: Seq<char>,
    names: Seq<Seq<char>>,
    value: nat,
) -> bool {
    occurs(
        text,
        name + ("{hash=\""@ + escaped(hash) + "\",names=\""@ + escaped(comma_joined(names))
            + "\"}"@) + " "@ + decimal(value) + "\n"@,
    )
}

/// Whether a text holds the two lines that say what a family is and of which kind.
pub open spec fn announces(
    text: Seq<char>,
    name: Seq<char>,
    help: Seq<char>,
    kind: Seq<char>,
) -> bool {
    occurs(
        text,
        "# HELP "@ + name + " "@ + help + "\n# TYPE "@ + name + " "@ + kind + "\n"@,
    )
}

proof fn lemma_family_shows(
    name: Seq<char>,
    help: Seq<char>,
    kind: Seq<char>,
    labels: Seq<Seq<char>>,
    values: Seq<u64>,
)
    requires
        labels.len() == values.len(),
    ensures
        announces(family(name, help, kind, labels, values), name, help, kind),
        forall|i: int|
            0 <= i < labels.len() ==> occurs(
                family(name, help, kind, labels, values),
                name + #[trigger] labels[i] + " "@ + decimal(values[i] as nat) + "\n"@,
            ),
{
    broadcast use lemma_occurs_in_sum;

    let none = Seq::<char>::empty();
    let head = "# HELP "@ + name + " "@ + help + "\n# TYPE "@ + name + " "@ + kind + "\n"@;
    assert(family_header(name, help, kind) =~= none + head + none);
    lemma_occurs_here(none, head, none);
    assert forall|i: int| 0 <= i < labels.len() implies occurs(
        family(name, help, kind, labels, values),
        name + #[trigger] labels[i] + " "@ + decimal(values[i] as nat) + "\n"@,
    ) by {
        lemma_family_line(name, labels, values, i);
    }
}

/// The page announces the seven families of the counts for launch arguments, and shows of each
/// launch arguments the count of each family, beside their hash and their names.
#[verifier::rlimit(60)]
#[verifier::spinoff_prover]
pub proof fn law_page_shows_launch_arguments(
    m: Metrics,
    cb: Option<&CircuitBreaker>,
    llama_cpp_version: Seq<char>,
    process: ProcessInfo,
    i: int,
)
    requires
        0 <= i < m.hash_metrics.entries@.len(),
    ensures
        ({
            let text = prometheus_text(m, cb, llama_cpp_version, process);
            let e = m.hash_metrics.entries@[i];
            let names = texts(e.1.display_names@);
            &&& announces(text, "proxy_hash_requests_total"@, "Total requests per model/profile hash."@, "counter"@)
            &&& shows_hash(text, "proxy_hash_requests_total"@, e.0@, names, e.1.requests_total as nat)
            &&& announces(text, "proxy_hash_errors_total"@, "Total errors per model/profile hash."@, "counter"@)
            &&& shows_hash(text, "proxy_hash_errors_total"@, e.0@, names, e.1.errors_total as nat)
            &&& announces(text, "proxy_hash_tokens_generated_total"@, "Total tokens generated per hash."@, "counter"@)
            &&& shows_hash(text, "proxy_hash_tokens_generated_total"@, e.0@, names, e.1.tokens_generated_total as nat)
            &&& announces(text, "proxy_hash_total_latency_ms"@, "Total latency in milliseconds per hash."@, "counter"@)
            &&& shows_hash(text, "proxy_hash_total_latency_ms"@, e.0@, names, e.1.total_latency_ms as nat)
            &&& announces(text, "proxy_hash_p95_latency_ms"@, "P95 latency in milliseconds (last 100 samples)."@, "gauge"@)
            &&& shows_hash(text, "proxy_hash_p95_latency_ms"@, e.0@, names, percentile_95(e.1.latency_samples@) as nat)
            &&& announces(text, "proxy_hash_peak_vram_mb"@, "Peak VRAM usage in MB per hash."@, "gauge"@)
            &&& shows_hash(text, "proxy_hash_peak_vram_mb"@, e.0@, names, e.1.peak_vram_mb as nat)
            &&& announces(text, "proxy_hash_peak_sysmem_mb"@, "Peak system memory usage in MB per hash."@, "gauge"@)
            &&& shows_hash(text, "proxy_hash_peak_sysmem_mb"@, e.0@, names, e.1.peak_sysmem_mb as nat)
        }),
{
    broadcast use lemma_occurs_in_sum;

    let entries = m.hash_metrics.entries@;
    let labels = all_labels(entries);
    let e = entries[i];
    assert(labels[i] == "{hash=\""@ + escaped(e.0@) + "\",names=\""@ + escaped(
        comma_joined(texts(e.1.display_names@)),
    ) + "\"}"@);
    let v0 = entries.map_values(|e: (String, HashMetrics)| e.1.requests_total);
    assert(v0[i] == e.1.requests_total);
    lemma_family_shows("proxy_hash_requests_total"@, "Total requests per model/profile hash."@, "counter"@, labels, v0);
    let v1 = entries.map_values(|e: (String, HashMetrics)| e.1.errors_total);
    assert(v1[i] == e.1.errors_total);
    lemma_family_shows("proxy_hash_errors_total"@, "Total errors per model/profile hash."@, "counter"@, labels, v1);
    let v2 = entries.map_values(|e: (String, HashMetrics)| e.1.tokens_generated_total);
    assert(v2[i] == e.1.tokens_generated_total);
    lemma_family_shows("proxy_hash_tokens_generated_total"@, "Total tokens generated per hash."@, "counter"@, labels, v2);
    let v3 = entries.map_values(|e: (String, HashMetrics)| e.1.total_latency_ms);
    assert(v3[i] == e.1.total_latency_ms);
    lemma_family_shows("proxy_hash_total_latency_ms"@, "Total latency in milliseconds per hash."@, "counter"@, labels, v3);
    let v4 = entries.map_values(|e: (String, HashMetrics)| percentile_95(e.1.latency_samples@));
    assert(v4[i] == percentile_95(e.1.latency_samples@));
    lemma_family_shows("proxy_hash_p95_latency_ms"@, "P95 latency in milliseconds (last 100 samples)."@, "gauge"@, labels, v4);
    let v5 = entries.map_values(|e: (String, HashMetrics)| e.1.peak_vram_mb);
    assert(v5[i] == e.1.peak_vram_mb);
    lemma_family_shows("proxy_hash_peak_vram_mb"@, "Peak VRAM usage in MB per hash."@, "gauge"@, labels, v5);
    let v6 = entries.map_values(|e: (String, HashMetrics)| e.1.peak_sysmem_mb);
    assert(v6[i] == e.1.peak_sysmem_mb);
    lemma_family_shows("proxy_hash_peak_sysmem_mb"@, "Peak system memory usage in MB per hash."@, "gauge"@, labels, v6);
}

/// In a label a backslash, a quote and a line break get a backslash before them, the line break as
/// an `n`, and every other character stands for itself.
pub proof fn law_what_is_escaped(s: Seq<char>, c: char)
    ensures
        escaped(Seq::empty()) == Seq::<char>::empty(),
        escaped(s.push('\\')) == escaped(s) + seq!['\\', '\\'],
        escaped(s.push('"')) == escaped(s) + seq!['\\', '"'],
        escaped(s.push('\n')) == escaped(s) + seq!['\\', 'n'],
        c != '\\' && c != '"' && c != '\n' ==> escaped(s.push(c)) == escaped(s) + seq![c],
{
    assert(s.push('\\').drop_last() =~= s);
    assert(s.push('"').drop_last() =~= s);
    assert(s.push('\n').drop_last() =~= s);
    assert(s.push(c).drop_last() =~= s);
}

/// Names are joined in their order with a comma between each two.
pub proof fn law_names_are_joined(names: Seq<Seq<char>>, name: Seq<char>)
    ensures
        comma_joined(Seq::empty()) == Seq::<char>::empty(),
        comma_joined(seq![name]) == name,
        names.len() > 0 ==> comma_joined(names.push(name)) == comma_joined(names) + seq![','] + name,
{
    reveal_strlit(",");
    assert(names.push(name).drop_last() =~= names);
    assert(","@ =~= seq![',']);
}

/// How many digits a number has.
pub open spec fn width(n: u64) -> int {
    decimal(n as nat).len() as int
}

proof fn lemma_requests_length(m: Metrics, n: Metrics)
    ensures
        requests_text(m).len() - requests_text(n).len() == (width(m.requests_total) - width(n.requests_total))
            + (width(m.errors_total) - width(n.errors_total))
            + (width(m.current_requests) - width(n.current_requests)),
{
}

#[verifier::rlimit(60)]
#[verifier::spinoff_prover]
proof fn lemma_resources_length(m: Metrics, n: Metrics)
    ensures
        resources_text(m).len() - resources_text(n).len() == (width(m.node_llamesh_vram_mb) - width(n.node_llamesh_vram_mb))
            + (width(m.node_llamesh_sysmem_mb) - width(n.node_llamesh_sysmem_mb))
            + (width(m.node_external_vram_mb) - width(n.node_external_vram_mb))
            + (width(m.node_effective_vram_mb) - width(n.node_effective_vram_mb))
            + (width(m.node_effective_sysmem_mb) - width(n.node_effective_sysmem_mb))
            + (width(m.node_device_vram_used_mb) - width(n.node_device_vram_used_mb))
            + (width(m.node_device_vram_total_mb) - width(n.node_device_vram_total_mb))
            + (width(m.node_active_instances) - width(n.node_active_instances))
            + (width(m.node_max_vram_mb) - width(n.node_max_vram_mb))
            + (width(m.node_max_sysmem_mb) - width(n.node_max_sysmem_mb)),
{
}

proof fn lemma_waiting_length(m: Metrics, n: Metrics)
    ensures
        waiting_text(m).len() - waiting_text(n).len() == (width(m.queue_pending_tokens) - width(n.queue_pending_tokens))
            + (width(m.queue_wait_total_ms) - width(n.queue_wait_total_ms))
            + (width(m.queue_wait_count) - width(n.queue_wait_count))
            + (width(m.queue_length) - width(n.queue_length)),
{
}

proof fn lemma_drops_length(m: Metrics, n: Metrics)
    ensures
        drops_text(m).len() - drops_text(n).len() == (width(m.queue_drops_full) - width(n.queue_drops_full))
            + (width(m.queue_drops_timeout) - width(n.queue_drops_timeout))
            + (width(m.queue_drops_global_limit) - width(n.queue_drops_global_limit)),
{
}

proof fn lemma_process_length(p: ProcessInfo, q: ProcessInfo)
    ensures
        process_text(p).len() - process_text(q).len() == (width(p.token_counting_disabled_total) - width(q.token_counting_disabled_total))
            + (width(p.skipped_stream_cleanups_total) - width(q.skipped_stream_cleanups_total)),
{
}

/// The numbers of a node stand on its page once each: with the same circuits and launch arguments,
/// one page is longer than another by as many characters as its numbers have more digits.
#[verifier::rlimit(60)]
#[verifier::spinoff_prover]
pub proof fn law_numbers_stand_once(
    m: Metrics,
    n: Metrics,
    cb: Option<&CircuitBreaker>,
    version: Seq<char>,
    p: ProcessInfo,
    q: ProcessInfo,
)
    requires
        m.hash_metrics == n.hash_metrics,
        p.version == q.version,
    ensures
        prometheus_text(m, cb, version, p).len() - prometheus_text(n, cb, version, q).len() == (width(m.requests_total) - width(n.requests_total))
            + (width(m.errors_total) - width(n.errors_total))
            + (width(m.current_requests) - width(n.current_requests))
            + (width(m.node_llamesh_vram_mb) - width(n.node_llamesh_vram_mb))
            + (width(m.node_llamesh_sysmem_mb) - width(n.node_llamesh_sysmem_mb))
            + (width(m.node_external_vram_mb) - width(n.node_external_vram_mb))
            + (width(m.node_effective_vram_mb) - width(n.node_effective_vram_mb))
            + (width(m.node_effective_sysmem_mb) - width(n.node_effective_sysmem_mb))
            + (width(m.node_device_vram_used_mb) - width(n.node_device_vram_used_mb))
            + (width(m.node_device_vram_total_mb) - width(n.node_device_vram_total_mb))
            + (width(m.node_active_instances) - width(n.node_active_instances))
            + (width(m.node_max_vram_mb) - width(n.node_max_vram_mb))
            + (width(m.node_max_sysmem_mb) - width(n.node_max_sysmem_mb))
            + (width(m.queue_pending_tokens) - width(n.queue_pending_tokens))
            + (width(m.queue_wait_total_ms) - width(n.queue_wait_total_ms))
            + (width(m.queue_wait_count) - width(n.queue_wait_count))
            + (width(m.queue_length) - width(n.queue_length))
            + (width(m.queue_drops_full) - width(n.queue_drops_full))
            + (width(m.queue_drops_timeout) - width(n.queue_drops_timeout))
            + (width(m.queue_drops_global_limit) - width(n.queue_drops_global_limit))
            + (width(p.token_counting_disabled_total) - width(q.token_counting_disabled_total))
            + (width(p.skipped_stream_cleanups_total) - width(q.skipped_stream_cleanups_total)),
{
    lemma_requests_length(m, n);
    lemma_resources_length(m, n);
    lemma_waiting_length(m, n);
    lemma_drops_length(m, n);
    lemma_process_length(p, q);
}

/// Each circuit takes one line of the page, and the page of a node without circuits has none.
#[verifier::rlimit(60)]
#[verifier::spinoff_prover]
pub proof fn law_one_line_per_circuit(
    m: Metrics,
    few: &CircuitBreaker,
    more: &CircuitBreaker,
    version: Seq<char>,
    process: ProcessInfo,
    peer: String,
    circuit: PeerCircuit,
)
    requires
        more.circuits.entries@ == few.circuits.entries@.push((peer, circuit)),
    ensures
        prometheus_text(m, Some(more), version, process).len() == prometheus_text(
            m,
            Some(few),
            version,
            process,
        ).len() + ("proxy_circuit_breaker_state"@ + "{peer=\""@ + escaped(peer@) + "\"} "@).len() + 2,
{
    reveal_strlit("\"} ");
    reveal_strlit("\"}");
    reveal_strlit(" ");
    reveal_strlit("\n");
    let entries = few.circuits.entries@;
    assert(entries.push((peer, circuit)).drop_last() =~= entries);
    assert(decimal(state_number(circuit.state) as nat).len() == 1);
}

proof fn lemma_family_grows(
    name: Seq<char>,
    help: Seq<char>,
    kind: Seq<char>,
    labels: Seq<Seq<char>>,
    values: Seq<u64>,
    label: Seq<char>,
    value: u64,
)
    requires
        labels.len() == values.len(),
    ensures
        family(name, help, kind, labels.push(label), values.push(value)).len() == family(
            name,
            help,
            kind,
            labels,
            values,
        ).len() + name.len() + label.len() + width(value) + 2,
{
    reveal_strlit(" ");
    reveal_strlit("\n");
    law_family_is_contiguous(name, help, kind, labels, values, label, value);
}

/// Launch arguments take one line in each of the seven families of the page: with the name of the
/// family, their labels and their number.
#[verifier::rlimit(60)]
#[verifier::spinoff_prover]
pub proof fn law_seven_lines_per_arguments(
    entries: Seq<(String, HashMetrics)>,
    hash: String,
    h: HashMetrics,
)
    ensures
        ({
            let labels = ("{hash=\""@ + escaped(hash@) + "\",names=\""@ + escaped(
                comma_joined(texts(h.display_names@)),
            ) + "\"}"@).len();
            let names = "proxy_hash_requests_total"@.len() + "proxy_hash_errors_total"@.len()
                + "proxy_hash_tokens_generated_total"@.len() + "proxy_hash_total_latency_ms"@.len()
                + "proxy_hash_p95_latency_ms"@.len() + "proxy_hash_peak_vram_mb"@.len()
                + "proxy_hash_peak_sysmem_mb"@.len();
            hashes_text(entries.push((hash, h))).len() == hashes_text(entries).len() + names + 7 * (
            labels + 2) + width(h.requests_total) + width(h.errors_total) + width(
                h.tokens_generated_total,
            ) + width(h.total_latency_ms) + width(percentile_95(h.latency_samples@)) + width(
                h.peak_vram_mb,
            ) + width(h.peak_sysmem_mb)
        }),
{
    let more = entries.push((hash, h));
    let labels = all_labels(entries);
    let label = hash_labels(hash@, texts(h.display_names@));
    assert(all_labels(more) =~= labels.push(label));
    let requests = |e: (String, HashMetrics)| e.1.requests_total;
    let errors = |e: (String, HashMetrics)| e.1.errors_total;
    let tokens = |e: (String, HashMetrics)| e.1.tokens_generated_total;
    let latency = |e: (String, HashMetrics)| e.1.total_latency_ms;
    let p95 = |e: (String, HashMetrics)| percentile_95(e.1.latency_samples@);
    let vram = |e: (String, HashMetrics)| e.1.peak_vram_mb;
    let sysmem = |e: (String, HashMetrics)| e.1.peak_sysmem_mb;
    assert(more.map_values(requests) =~= entries.map_values(requests).push(h.requests_total));
    assert(more.map_values(errors) =~= entries.map_values(errors).push(h.errors_total));
    assert(more.map_values(tokens) =~= entries.map_values(tokens).push(h.tokens_generated_total));
    assert(more.map_values(latency) =~= entries.map_values(latency).push(h.total_latency_ms));
    assert(more.map_values(p95) =~= entries.map_values(p95).push(
        percentile_95(h.latency_samples@),
    ));
    assert(more.map_values(vram) =~= entries.map_values(vram).push(h.peak_vram_mb));
    assert(more.map_values(sysmem) =~= entries.map_values(sysmem).push(h.peak_sysmem_mb));
    lemma_family_grows(
        "proxy_hash_requests_total"@,
        "Total requests per model/profile hash."@,
        "counter"@,
        labels,
        entries.map_values(requests),
        label,
        h.requests_total,
    );
    lemma_family_grows(
        "proxy_hash_errors_total"@,
        "Total errors per model/profile hash."@,
        "counter"@,
        labels,
        entries.map_values(errors),
        label,
        h.errors_total,
    );
    lemma_family_grows(
        "proxy_hash_tokens_generated_total"@,
        "Total tokens generated per hash."@,
        "counter"@,
        labels,
        entries.map_values(tokens),
        label,
        h.tokens_generated_total,
    );
    lemma_family_grows(
        "proxy_hash_total_latency_ms"@,
        "Total latency in milliseconds per hash."@,
        "counter"@,
        labels,
        entries.map_values(latency),
        label,
        h.total_latency_ms,
    );
    lemma_family_grows(
        "proxy_hash_p95_latency_ms"@,
        "P95 latency in milliseconds (last 100 samples)."@,
        "gauge"@,
        labels,
        entries.map_values(p95),
        label,
        percentile_95(h.latency_samples@),
    );
    lemma_family_grows(
        "proxy_hash_peak_vram_mb"@,
        "Peak VRAM usage in MB per hash."@,
        "gauge"@,
        labels,
        entries.map_values(vram),
        label,
        h.peak_vram_mb,
    );
    lemma_family_grows(
        "proxy_hash_peak_sysmem_mb"@,
        "Peak system memory usage in MB per hash."@,
        "gauge"@,
        labels,
        entries.map_values(sysmem),
        label,
        h.peak_sysmem_mb,
    );
}

} // verus!
