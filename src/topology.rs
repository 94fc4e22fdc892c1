//! Wiring the routing graph: queues are named by their config paths, and
//! every forward of a filter or a source must name a queue that already
//! exists when it is resolved.
//!
//! Queues stand here as their positions in the list of declared config
//! paths; the caller opens one real queue per position.
use vstd::prelude::*;

verus! {

/// A configuration error found while wiring the graph.
#[derive(Clone, Debug)]
pub enum ConfigError {
    /// `forward`, named by the node at `config_path`, names no queue.
    UnresolvedForward { config_path: String, forward: String },
    /// Two queues were declared with this config path.
    DuplicateConfigPath(String),
}

/// The config paths of `v`, as character sequences.
pub open spec fn names(v: Seq<String>) -> Seq<Seq<char>> {
    v.map_values(|s: String| s@)
}

/// Whether `name` is among the first `n` names of `avail`.
pub open spec fn declared_in(avail: Seq<Seq<char>>, n: int, name: Seq<char>) -> bool {
    exists|i: int| 0 <= i < n && avail[i] == name
}

/// Whether `i` is the first position of `name` in `avail`.
pub open spec fn first_position(avail: Seq<Seq<char>>, i: int, name: Seq<char>) -> bool {
    0 <= i < avail.len() && avail[i] == name && forall|j: int| 0 <= j < i ==> avail[j] != name
}

/// Whether every name of `forwards` is declared in `avail`.
pub open spec fn all_resolve(avail: Seq<Seq<char>>, forwards: Seq<Seq<char>>) -> bool {
    forall|j: int| 0 <= j < forwards.len() ==> declared_in(avail, avail.len() as int, #[trigger] forwards[j])
}

/// Whether `idx` gives, for each name of `forwards`, its first position in `avail`.
pub open spec fn resolved(avail: Seq<Seq<char>>, forwards: Seq<Seq<char>>, idx: Seq<usize>) -> bool {
    idx.len() == forwards.len() && forall|j: int|
        0 <= j < idx.len() ==> first_position(avail, #[trigger] idx[j] as int, forwards[j])
}

/// Whether no position occurs twice in `s`.
pub open spec fn distinct(s: Seq<usize>) -> bool {
    forall|i: int, j: int| 0 <= i < j < s.len() ==> s[i] != s[j]
}

/// The position of `name` in `available`, if it is there: the first one.
pub fn find_queue(available: &Vec<String>, name: &String) -> (r: Option<usize>)
    ensures
        r is None <==> !declared_in(names(available@), available@.len() as int, name@),
        r matches Some(i) ==> first_position(names(available@), i as int, name@),
{
    let ghost avail = names(available@);
    let mut i: usize = 0;
    while i < available.len()
        invariant
            avail == names(available@),
            i <= available@.len(),
            forall|j: int| 0 <= j < i ==> avail[j] != name@,
        decreases available.len() - i,
    {
        if available[i] == *name {
            assert(avail[i as int] == name@);
            return Some(i);
        }
        i = i + 1;
    }
    None
}

/// Add `pos` to the set `set`, kept without repeats.
fn insert_position(set: &mut Vec<usize>, pos: usize)
    requires
        distinct(old(set)@),
    ensures
        distinct(final(set)@),
        final(set)@.to_set() == old(set)@.to_set().insert(pos),
        old(set)@.contains(pos) ==> final(set)@ == old(set)@,
        !old(set)@.contains(pos) ==> final(set)@ == old(set)@.push(pos),
{
    let mut i: usize = 0;
    while i < set.len()
        invariant
            set@ == old(set)@,
            distinct(old(set)@),
            i <= set@.len(),
            forall|j: int| 0 <= j < i ==> set@[j] != pos,
        decreases set.len() - i,
    {
        if set[i] == pos {
            proof {
                assert(set@.to_set().insert(pos) =~= set@.to_set());
            }
            return;
        }
        i = i + 1;
    }
    proof {
        set@.lemma_push_to_set_commute(pos);
    }
    set.push(pos);
}

/// Resolve each of `forwards`, declared by the node at `config_path`, against
/// the queues `available`, appending their positions to `sends` in order.
/// Where `record_top_level` is set, the positions also go into
/// `top_level_forwards`, the set of queues that the flush clock feeds.
/// Fails on the first forward that names no queue.
pub fn populate_forwards(
    sends: &mut Vec<usize>,
    top_level_forwards: &mut Vec<usize>,
    record_top_level: bool,
    forwards: &Vec<String>,
    config_path: &String,
    available: &Vec<String>,
) -> (r: Result<(), ConfigError>)
    requires
        distinct(old(top_level_forwards)@),
    ensures
        distinct(final(top_level_forwards)@),
        r is Ok <==> all_resolve(names(available@), names(forwards@)),
        r is Ok ==> final(sends)@.len() == old(sends)@.len() + forwards@.len()
            && final(sends)@.subrange(0, old(sends)@.len() as int) == old(sends)@
            && resolved(
                names(available@),
                names(forwards@),
                final(sends)@.skip(old(sends)@.len() as int),
            ),
        r is Ok && record_top_level ==> final(top_level_forwards)@.to_set() == old(
            top_level_forwards,
        )@.to_set() + final(sends)@.skip(old(sends)@.len() as int).to_set(),
        r is Ok && !record_top_level ==> final(top_level_forwards)@ == old(top_level_forwards)@,
        r matches Err(e) ==> (e matches ConfigError::UnresolvedForward { config_path: p, forward: f }
            && p@ == config_path@ && forwards@.contains(f)
            && !declared_in(names(available@), available@.len() as int, f@)),
{
    let ghost avail = names(available@);
    let ghost fw = names(forwards@);
    let ghost s0 = sends@;
    let ghost t0 = top_level_forwards@;
    let mut j: usize = 0;
    while j < forwards.len()
        invariant
            avail == names(available@),
            fw == names(forwards@),
            j <= forwards@.len(),
            distinct(top_level_forwards@),
            sends@.len() == s0.len() + j,
            sends@.subrange(0, s0.len() as int) == s0,
            resolved(avail, fw.take(j as int), sends@.skip(s0.len() as int)),
            record_top_level ==> top_level_forwards@.to_set() == t0.to_set() + sends@.skip(
                s0.len() as int,
            ).to_set(),
            !record_top_level ==> top_level_forwards@ == t0,
        decreases forwards.len() - j,
    {
        match find_queue(available, &forwards[j]) {
            Some(pos) => {
                let ghost before = sends@;
                sends.push(pos);
                proof {
                    assert(sends@.subrange(0, s0.len() as int) =~= s0);
                    assert(sends@.skip(s0.len() as int) =~= before.skip(s0.len() as int).push(pos));
                    assert(fw.take(j + 1) =~= fw.take(j as int).push(fw[j as int]));
                    before.skip(s0.len() as int).lemma_push_to_set_commute(pos);
                }
                if record_top_level {
                    insert_position(top_level_forwards, pos);
                    proof {
                        assert(top_level_forwards@.to_set() =~= t0.to_set() + sends@.skip(
                            s0.len() as int,
                        ).to_set());
                    }
                }
            },
            None => {
                proof {
                    assert(forwards@.contains(forwards@[j as int]));
                    assert(!all_resolve(avail, fw)) by {
                        assert(fw[j as int] == forwards@[j as int]@);
                    }
                }
                return Err(
                    ConfigError::UnresolvedForward {
                        config_path: config_path.clone(),
                        forward: forwards[j].clone(),
                    },
                );
            },
        }
        j = j + 1;
    }
    proof {
        assert(fw.take(j as int) =~= fw);
        assert forall|k: int| 0 <= k < fw.len() implies declared_in(avail, avail.len() as int, #[trigger] fw[k]) by {
            let idx = sends@.skip(s0.len() as int)[k];
            assert(first_position(avail, idx as int, fw[k]));
        }
    }
    Ok(())
}

/// A filter or a source as the configuration declares it.
#[derive(Clone, Debug)]
pub struct NodeSpec {
    /// The node's unique name in the routing topology.
    pub config_path: String,
    /// The config paths of the queues that the node writes to.
    pub forwards: Vec<String>,
}

/// The routing graph as the configuration declares it.
#[derive(Clone, Debug)]
pub struct TopologyConfig {
    /// The config path of each sink.
    pub sinks: Vec<String>,
    /// The filters, in configuration order.
    pub filters: Vec<NodeSpec>,
    /// The sources, the internal one aside.
    pub sources: Vec<NodeSpec>,
    /// The source of the router's own metrics.
    pub internal: NodeSpec,
}

/// The wired graph: every queue by position, and every forward resolved to
/// one of them.
#[derive(Clone, Debug)]
pub struct Topology {
    /// The config path of each queue, in the order the queues are opened:
    /// sinks first, then filters.
    pub queues: Vec<String>,
    /// For each filter, the positions of the queues it writes to.
    pub filter_forwards: Vec<Vec<usize>>,
    /// For each source, the positions of the queues it writes to.
    pub source_forwards: Vec<Vec<usize>>,
    /// The positions of the queues the internal source writes to.
    pub internal_forwards: Vec<usize>,
    /// The queues that the flush clock feeds: those a source writes to
    /// directly, each once.
    pub flush_targets: Vec<usize>,
}

/// The config paths of the queues that `cfg` declares, in the order they are
/// opened.
pub open spec fn queue_names(cfg: TopologyConfig) -> Seq<Seq<char>> {
    names(cfg.sinks@) + cfg.filters@.map_values(|n: NodeSpec| n.config_path@)
}

/// Whether no name occurs twice in `s`.
pub open spec fn unique(s: Seq<Seq<char>>) -> bool {
    forall|i: int, j: int| 0 <= i < j < s.len() ==> s[i] != s[j]
}

/// Whether each filter of `cfg` forwards only to queues opened before its own.
pub open spec fn filters_resolve(cfg: TopologyConfig) -> bool {
    forall|i: int|
        0 <= i < cfg.filters@.len() ==> all_resolve(
            queue_names(cfg).take(cfg.sinks@.len() + i),
            names(#[trigger] cfg.filters@[i].forwards@),
        )
}

/// Whether each source of `cfg`, the internal one included, forwards only to
/// declared queues.
pub open spec fn sources_resolve(cfg: TopologyConfig) -> bool {
    &&& forall|i: int|
        0 <= i < cfg.sources@.len() ==> all_resolve(
            queue_names(cfg),
            names(#[trigger] cfg.sources@[i].forwards@),
        )
    &&& all_resolve(queue_names(cfg), names(cfg.internal.forwards@))
}

/// Whether `cfg` can be wired: config paths are unique and every forward
/// resolves.
pub open spec fn valid_config(cfg: TopologyConfig) -> bool {
    unique(queue_names(cfg)) && filters_resolve(cfg) && sources_resolve(cfg)
}

/// Whether `p` is the position of a queue that some source of `t` writes to.
pub open spec fn source_target(t: Topology, p: usize) -> bool {
    t.internal_forwards@.contains(p) || exists|i: int|
        0 <= i < t.source_forwards@.len() && (#[trigger] t.source_forwards@[i])@.contains(p)
}

/// Check that `name` is not yet among `queues`, then add it.
fn open_queue(queues: &mut Vec<String>, name: &String) -> (r: Result<(), ConfigError>)
    requires
        unique(names(old(queues)@)),
    ensures
        r is Ok <==> !declared_in(names(old(queues)@), old(queues)@.len() as int, name@),
        r is Ok ==> names(final(queues)@) == names(old(queues)@).push(name@),
        r is Ok ==> unique(names(final(queues)@)),
        r is Err ==> final(queues)@ == old(queues)@,
        r matches Err(e) ==> (e matches ConfigError::DuplicateConfigPath(p) && p@ == name@),
{
    match find_queue(queues, name) {
        Some(_) => Err(ConfigError::DuplicateConfigPath(name.clone())),
        None => {
            let ghost before = names(queues@);
            queues.push(name.clone());
            proof {
                assert(names(queues@) =~= before.push(name@));
                assert forall|i: int, j: int| 0 <= i < j < names(queues@).len() implies names(queues@)[i]
                    != names(queues@)[j] by {
                    if j == before.len() {
                        assert(!declared_in(before, before.len() as int, name@));
                        assert(before[i] != name@);
                    }
                }
            }
            Ok(())
        },
    }
}

/// Wire the graph that `cfg` declares: open a queue for each sink, then for
/// each filter in order, resolving its forwards against the queues opened
/// before it; then resolve the forwards of every source, the internal one
/// included, and gather their targets as the queues the flush clock feeds.
pub fn build_topology(cfg: &TopologyConfig) -> (r: Result<Topology, ConfigError>)
    ensures
        r is Ok <==> valid_config(*cfg),
        r matches Err(e) ==> match e {
            ConfigError::DuplicateConfigPath(p) => !unique(queue_names(*cfg)) && queue_names(*cfg).contains(p@),
            ConfigError::UnresolvedForward { .. } => !(filters_resolve(*cfg) && sources_resolve(*cfg)),
        },
        r matches Ok(t) ==> {
            &&& names(t.queues@) == queue_names(*cfg)
            &&& t.filter_forwards@.len() == cfg.filters@.len()
            &&& forall|i: int|
                0 <= i < cfg.filters@.len() ==> resolved(
                    queue_names(*cfg).take(cfg.sinks@.len() + i),
                    names(cfg.filters@[i].forwards@),
                    (#[trigger] t.filter_forwards@[i])@,
                )
            &&& t.source_forwards@.len() == cfg.sources@.len()
            &&& forall|i: int|
                0 <= i < cfg.sources@.len() ==> resolved(
                    queue_names(*cfg),
                    names(cfg.sources@[i].forwards@),
                    (#[trigger] t.source_forwards@[i])@,
                )
            &&& resolved(queue_names(*cfg), names(cfg.internal.forwards@), t.internal_forwards@)
            &&& distinct(t.flush_targets@)
            &&& forall|p: usize| #[trigger] t.flush_targets@.contains(p) <==> source_target(t, p)
        },
{
    let ghost qn = queue_names(*cfg);
    let ghost ns = cfg.sinks@.len();
    let mut queues: Vec<String> = Vec::new();
    let mut i: usize = 0;
    while i < cfg.sinks.len()
        invariant
            qn == queue_names(*cfg),
            ns == cfg.sinks@.len(),
            i <= ns,
            names(queues@) == qn.take(i as int),
            unique(names(queues@)),
        decreases cfg.sinks.len() - i,
    {
        let ghost before = names(queues@);
        match open_queue(&mut queues, &cfg.sinks[i]) {
            Ok(()) => {},
            Err(e) => {
                proof {
                    assert(qn.len() == ns + cfg.filters@.len());
                    assert(before.len() == i);
                    assert(declared_in(before, before.len() as int, cfg.sinks@[i as int]@));
                    let k = choose|k: int| 0 <= k < before.len() && before[k] == cfg.sinks@[i as int]@;
                    assert(qn.take(i as int)[k] == qn[k]);
                    assert(qn[k] == before[k]);
                    assert(names(cfg.sinks@)[i as int] == cfg.sinks@[i as int]@);
                    assert(qn[i as int] == cfg.sinks@[i as int]@);
                    assert(!unique(qn));
                }
                return Err(e);
            },
        }
        proof {
            assert(qn[i as int] == cfg.sinks@[i as int]@);
            assert(names(queues@) =~= qn.take(i + 1));
        }
        i = i + 1;
    }
    let mut filter_forwards: Vec<Vec<usize>> = Vec::new();
    let mut unused: Vec<usize> = Vec::new();
    let mut f: usize = 0;
    while f < cfg.filters.len()
        invariant
            qn == queue_names(*cfg),
            ns == cfg.sinks@.len(),
            f <= cfg.filters@.len(),
            names(queues@) == qn.take(ns + f),
            unique(names(queues@)),
            distinct(unused@),
            filter_forwards@.len() == f,
            forall|k: int|
                0 <= k < f ==> all_resolve(
                    qn.take(ns + k),
                    names(#[trigger] cfg.filters@[k].forwards@),
                ),
            forall|k: int|
                0 <= k < f ==> resolved(
                    qn.take(ns + k),
                    names(cfg.filters@[k].forwards@),
                    (#[trigger] filter_forwards@[k])@,
                ),
        decreases cfg.filters.len() - f,
    {
        let node = &cfg.filters[f];
        let mut sends: Vec<usize> = Vec::new();
        let res = populate_forwards(&mut sends, &mut unused, false, &node.forwards, &node.config_path, &queues);
        match res {
            Ok(()) => {},
            Err(e) => {
                return Err(e);
            },
        }
        assert(sends@.skip(0) =~= sends@);
        let ghost before = names(queues@);
        match open_queue(&mut queues, &node.config_path) {
            Ok(()) => {},
            Err(e) => {
                proof {
                    let k = choose|k: int| 0 <= k < before.len() && before[k] == node.config_path@;
                    assert(qn.take(ns + f)[k] == qn[k]);
                    assert(qn[k] == before[k]);
                    assert(qn[ns + f] == node.config_path@);
                }
                return Err(e);
            },
        }
        proof {
            assert(qn[ns + f] == node.config_path@);
            assert(names(queues@) =~= qn.take(ns + f + 1));
        }
        filter_forwards.push(sends);
        f = f + 1;
    }
    assert(qn.take(ns + f) =~= qn);
    let mut flush_targets: Vec<usize> = Vec::new();
    let mut source_forwards: Vec<Vec<usize>> = Vec::new();
    let mut s: usize = 0;
    while s < cfg.sources.len()
        invariant
            qn == queue_names(*cfg),
            names(queues@) == qn,
            s <= cfg.sources@.len(),
            distinct(flush_targets@),
            source_forwards@.len() == s,
            forall|k: int|
                0 <= k < s ==> all_resolve(qn, names(#[trigger] cfg.sources@[k].forwards@)),
            forall|k: int|
                0 <= k < s ==> resolved(
                    qn,
                    names(cfg.sources@[k].forwards@),
                    (#[trigger] source_forwards@[k])@,
                ),
            forall|p: usize|
                #[trigger] flush_targets@.contains(p) <==> exists|k: int|
                    0 <= k < s && (#[trigger] source_forwards@[k])@.contains(p),
        decreases cfg.sources.len() - s,
    {
        let node = &cfg.sources[s];
        let mut sends: Vec<usize> = Vec::new();
        let ghost before = flush_targets@;
        let res = populate_forwards(&mut sends, &mut flush_targets, true, &node.forwards, &node.config_path, &queues);
        match res {
            Ok(()) => {},
            Err(e) => {
                return Err(e);
            },
        }
        assert(sends@.skip(0) =~= sends@);
        let ghost prev = source_forwards@;
        source_forwards.push(sends);
        proof {
            assert forall|p: usize| #[trigger] flush_targets@.contains(p) <==> exists|k: int|
                0 <= k < s + 1 && (#[trigger] source_forwards@[k])@.contains(p) by {
                assert(flush_targets@.to_set().contains(p) == flush_targets@.contains(p));
                assert(before.to_set().contains(p) == before.contains(p));
                assert(sends@.to_set().contains(p) == sends@.contains(p));
                if flush_targets@.contains(p) {
                    if before.contains(p) {
                        let k = choose|k: int| 0 <= k < s && (#[trigger] prev[k])@.contains(p);
                        assert(source_forwards@[k] == prev[k]);
                    } else {
                        assert(source_forwards@[s as int] == sends);
                    }
                }
                if exists|k: int| 0 <= k < s + 1 && (#[trigger] source_forwards@[k])@.contains(p) {
                    let k = choose|k: int| 0 <= k < s + 1 && (#[trigger] source_forwards@[k])@.contains(p);
                    if k < s {
                        assert(source_forwards@[k] == prev[k]);
                    }
                }
            }
        }
        s = s + 1;
    }
    let mut internal_forwards: Vec<usize> = Vec::new();
    let ghost before = flush_targets@;
    let res = populate_forwards(
        &mut internal_forwards,
        &mut flush_targets,
        true,
        &cfg.internal.forwards,
        &cfg.internal.config_path,
        &queues,
    );
    match res {
        Ok(()) => {},
        Err(e) => {
            return Err(e);
        },
    }
    assert(internal_forwards@.skip(0) =~= internal_forwards@);
    let t = Topology { queues, filter_forwards, source_forwards, internal_forwards, flush_targets };
    proof {
        assert forall|p: usize| #[trigger] t.flush_targets@.contains(p) <==> source_target(t, p) by {
            assert(t.flush_targets@.to_set().contains(p) == t.flush_targets@.contains(p));
            assert(before.to_set().contains(p) == before.contains(p));
            assert(t.internal_forwards@.to_set().contains(p) == t.internal_forwards@.contains(p));
            if before.contains(p) {
                let k = choose|k: int| 0 <= k < s && (#[trigger] t.source_forwards@[k])@.contains(p);
                assert(0 <= k < t.source_forwards@.len());
            }
            if exists|k: int| 0 <= k < t.source_forwards@.len() && (#[trigger] t.source_forwards@[k])@.contains(p) {
                let k = choose|k: int| 0 <= k < t.source_forwards@.len() && (#[trigger] t.source_forwards@[k])@.contains(p);
                assert(before.contains(p));
            }
        }
    }
    Ok(t)
}

} // verus!
