//! The dialogue graph and the turn-by-turn walk through it.

use std::collections::HashMap;
use vstd::prelude::*;
use crate::node::{
    AnyNode, Node, NodeModel, first_at, has_label, lemma_choice_view, lemma_line_view, lookup,
};
use crate::text::{notice_line, notice_text, texts, trim_reply, trimmed};

verus! {

broadcast use vstd::std_specs::hash::group_hash_axioms;

/// The id that ends a walk.
pub const END_ID: u32 = 0;

/// The id a walk starts at.
pub const ENTRY_ID: u32 = 1;

/// What one turn of a walk does, as plain values.
pub enum Turn {
    /// The walk is over.
    End,
    /// Show `lines`, then go on at `next` without reading a reply.
    Show { lines: Seq<Seq<char>>, next: u32 },
    /// Show `lines`, then read a reply for the choice at the same id.
    Ask { lines: Seq<Seq<char>> },
}

/// What one turn of a walk does: the lines to show and where to go on.
pub enum Step {
    /// The walk is over.
    End,
    /// Show `lines`, then call again at `next` with no reply.
    Show { lines: Vec<String>, next: u32 },
    /// Show `lines`, read one line, and call again at the same id with it.
    Ask { lines: Vec<String> },
}

impl View for Step {
    type V = Turn;

    open spec fn view(&self) -> Turn {
        match self {
            Step::End => Turn::End,
            Step::Show { lines, next } => Turn::Show { lines: texts(lines@), next: *next },
            Step::Ask { lines } => Turn::Ask { lines: texts(lines@) },
        }
    }
}

/// The characters of a reply, if there is one.
pub open spec fn reply_view(reply: Option<String>) -> Option<Seq<char>> {
    match reply {
        Some(s) => Some(s@),
        None => None,
    }
}

/// One turn at `at` on the graph `g`, given the reply read for it, if any:
/// the graph afterwards and what the turn does.
///
/// The terminal id, or an id with no node, ends the walk. A line shows its
/// text and leads to its successor. A choice without a reply shows its prompt
/// and options and asks; with a reply whose trimmed text is the label of an
/// option, it takes that option's destination as its successor and leads
/// there; with any other reply, it shows a notice and asks again, unchanged.
pub open spec fn step(g: Map<u32, NodeModel>, at: u32, reply: Option<Seq<char>>) -> (
    Map<u32, NodeModel>,
    Turn,
) {
    if at == END_ID || !g.contains_key(at) {
        (g, Turn::End)
    } else {
        match g[at] {
            NodeModel::Line { text, next } => (g, Turn::Show { lines: seq![text], next }),
            NodeModel::Choice { choices, .. } => match reply {
                None => (g, Turn::Ask { lines: g[at].shown() }),
                Some(r) => match lookup(choices, trimmed(r)) {
                    Some(d) => (g.insert(at, g[at].with_next(d)), Turn::Show { lines: seq![], next: d }),
                    None => (g, Turn::Ask { lines: seq![notice_line(r)] }),
                },
            },
        }
    }
}

/// The graph after the node at `from` is given the successor `to`; with no
/// node at `from`, the graph as it was.
pub open spec fn connect_in(g: Map<u32, NodeModel>, from: u32, to: u32) -> Map<u32, NodeModel> {
    if g.contains_key(from) {
        g.insert(from, g[from].with_next(to))
    } else {
        g
    }
}

/// The lines shown by a walk from `at` that reads no reply, over at most
/// `turns` turns, and whether it reached its end within them.
pub open spec fn walk(g: Map<u32, NodeModel>, at: u32, turns: nat) -> (Seq<Seq<char>>, bool)
    decreases turns,
{
    if turns == 0 {
        (Seq::empty(), false)
    } else {
        match step(g, at, None).1 {
            Turn::End => (Seq::empty(), true),
            Turn::Show { lines, next } => {
                let rest = walk(step(g, at, None).0, next, (turns - 1) as nat);
                (lines + rest.0, rest.1)
            },
            Turn::Ask { lines } => (lines, false),
        }
    }
}

/// Whether `ids` are line nodes of `g`, each leading to the next, the last
/// leading to `stop`.
pub open spec fn line_chain(g: Map<u32, NodeModel>, ids: Seq<u32>, stop: u32) -> bool {
    forall|i: int|
        #![trigger ids[i]]
        0 <= i < ids.len() ==> {
            &&& ids[i] != END_ID
            &&& g.contains_key(ids[i])
            &&& g[ids[i]] is Line
            &&& g[ids[i]].next_id() == if i + 1 < ids.len() {
                ids[i + 1]
            } else {
                stop
            }
        }
}

/// Where a chain of ids starts: its first id, or `stop` when it is empty.
pub open spec fn chain_start(ids: Seq<u32>, stop: u32) -> u32 {
    if ids.len() > 0 {
        ids[0]
    } else {
        stop
    }
}

/// The texts of the line nodes at `ids`, in order.
pub open spec fn chain_texts(g: Map<u32, NodeModel>, ids: Seq<u32>) -> Seq<Seq<char>> {
    ids.map_values(|id: u32| g[id].shown()[0])
}

/// A walk from an id with no node ends at once and shows nothing.
pub proof fn lemma_absent_start_ends(g: Map<u32, NodeModel>, at: u32, reply: Option<Seq<char>>)
    requires
        !g.contains_key(at),
    ensures
        step(g, at, reply) == (g, Turn::End),
        walk(g, at, 1) == (Seq::<Seq<char>>::empty(), true),
{
}

/// A walk along a chain of line nodes shows each node's text once, in the
/// order of the chain, and ends where the last one leads to the terminal id or
/// to an id with no node.
pub proof fn lemma_line_chain_walk(g: Map<u32, NodeModel>, ids: Seq<u32>, stop: u32)
    requires
        line_chain(g, ids, stop),
        stop == END_ID || !g.contains_key(stop),
    ensures
        walk(g, chain_start(ids, stop), ids.len() + 1) == (chain_texts(g, ids), true),
    decreases ids.len(),
{
    if ids.len() == 0 {
        assert(chain_texts(g, ids) =~= Seq::<Seq<char>>::empty());
    } else {
        let rest = ids.drop_first();
        assert(line_chain(g, rest, stop)) by {
            assert forall|i: int| 0 <= i < rest.len() implies {
                &&& rest[i] != END_ID
                &&& g.contains_key(rest[i])
                &&& g[rest[i]] is Line
                &&& g[rest[i]].next_id() == if i + 1 < rest.len() {
                    rest[i + 1]
                } else {
                    stop
                }
            } by {
                assert(rest[i] == ids[i + 1]);
            }
        }
        lemma_line_chain_walk(g, rest, stop);
        assert(ids[0] != END_ID && g.contains_key(ids[0]));
        assert(chain_start(rest, stop) == g[ids[0]].next_id());
        assert(chain_texts(g, ids) =~= seq![g[ids[0]].shown()[0]] + chain_texts(g, rest));
    }
}

/// Storing a node under an id already in use replaces the node there whole:
/// nothing of the old node, its successor included, is kept.
pub proof fn lemma_insert_replaces(g: Map<u32, NodeModel>, id: u32, first: NodeModel, second: NodeModel)
    ensures
        g.insert(id, first).insert(id, second) == g.insert(id, second),
        g.insert(id, first).insert(id, second)[id] == second,
{
    assert(g.insert(id, first).insert(id, second) =~= g.insert(id, second));
}

/// Connecting from an id with no node leaves the graph as it was, however
/// often it is done; connecting the same pair twice is connecting it once.
pub proof fn lemma_connect_absent_no_change(g: Map<u32, NodeModel>, from: u32, to: u32)
    ensures
        !g.contains_key(from) ==> connect_in(g, from, to) == g,
        connect_in(connect_in(g, from, to), from, to) == connect_in(g, from, to),
{
    if g.contains_key(from) {
        assert(connect_in(connect_in(g, from, to), from, to) =~= connect_in(g, from, to));
    }
}

/// A choice given a reply whose trimmed text is none of its labels shows a
/// notice and asks again, and the graph, the choice included, is unchanged.
pub proof fn lemma_unknown_reply_rejected(g: Map<u32, NodeModel>, at: u32, reply: Seq<char>)
    requires
        at != END_ID,
        g.contains_key(at),
        g[at] is Choice,
        forall|i: int|
            0 <= i < g[at].choices().len() ==> #[trigger] g[at].choices()[i].0 != trimmed(reply),
    ensures
        step(g, at, Some(reply)) == (g, Turn::Ask { lines: seq![notice_line(reply)] }),
{
    assert(!has_label(g[at].choices(), trimmed(reply))) by {
        if has_label(g[at].choices(), trimmed(reply)) {
            let k = choose|k: int| first_at(g[at].choices(), trimmed(reply), k);
            assert(g[at].choices()[k].0 == trimmed(reply));
        }
    }
}

/// A graph of nodes keyed by id; at most one node per id.
pub struct Dialogue {
    nodes: HashMap<u32, AnyNode>,
}

impl View for Dialogue {
    type V = Map<u32, NodeModel>;

    closed spec fn view(&self) -> Map<u32, NodeModel> {
        self.nodes@.map_values(|n: AnyNode| n@)
    }
}

impl Dialogue {
    /// A dialogue with no nodes.
    pub fn new() -> (r: Dialogue)
        ensures
            r@ == Map::<u32, NodeModel>::empty(),
    {
        let r = Dialogue { nodes: HashMap::new() };
        proof {
            assert(r@ =~= Map::<u32, NodeModel>::empty());
        }
        r
    }

    /// Stores `value` under `key`, replacing any node stored there.
    pub fn insert_node(&mut self, key: u32, value: AnyNode)
        ensures
            final(self)@ == old(self)@.insert(key, value@),
    {
        let ghost v = value@;
        self.nodes.insert(key, value);
        proof {
            assert(self@ =~= old(self)@.insert(key, v));
        }
    }

    /// Sets the successor of the node at `from_id` to `to_id`; where no node is
    /// stored at `from_id`, nothing changes.
    pub fn connect_nodes(&mut self, from_id: u32, to_id: u32)
        ensures
            final(self)@ == connect_in(old(self)@, from_id, to_id),
    {
        let removed = self.nodes.remove(&from_id);
        match removed {
            Some(node) => {
                let mut node = node;
                node.connect(to_id);
                self.nodes.insert(from_id, node);
                proof {
                    assert(self@ =~= connect_in(old(self)@, from_id, to_id));
                }
            },
            None => {
                proof {
                    assert(self.nodes@ =~= old(self).nodes@);
                }
            },
        }
    }

    /// The node stored at `id`, if any.
    pub fn node(&self, id: u32) -> (r: Option<&AnyNode>)
        ensures
            match r {
                Some(n) => self@.contains_key(id) && self@[id] == n@,
                None => !self@.contains_key(id),
            },
    {
        self.nodes.get(&id)
    }

    /// One turn of the walk at `at`, with the reply read for it, if any: shows
    /// what the node there shows and says where to go on. A walk starts at
    /// the entry id with no reply, and goes on as each turn says until one ends it.
    pub fn talk(&mut self, at: u32, reply: Option<String>) -> (r: Step)
        ensures
            (final(self)@, r@) == step(old(self)@, at, reply_view(reply)),
    {
        if at == END_ID {
            return Step::End;
        }
        let dest: u32;
        match self.nodes.get(&at) {
            None => {
                return Step::End;
            },
            Some(AnyNode::Line(n)) => {
                proof {
                    lemma_line_view(n);
                    assert(self@.contains_key(at) && self@[at] == n@);
                }
                let lines = n.print();
                let next = n.successor();
                return Step::Show { lines, next };
            },
            Some(AnyNode::Choice(q)) => {
                proof {
                    lemma_choice_view(q);
                    assert(self@.contains_key(at) && self@[at] == q@);
                }
                match reply {
                    None => {
                        let lines = q.print();
                        return Step::Ask { lines };
                    },
                    Some(raw) => {
                        let label = trim_reply(&raw);
                        match q.destination(&label) {
                            Some(d) => {
                                dest = d;
                            },
                            None => {
                                let mut lines: Vec<String> = Vec::new();
                                lines.push(notice_text(&raw));
                                proof {
                                    assert(texts(lines@) =~= seq![notice_line(raw@)]);
                                }
                                return Step::Ask { lines };
                            },
                        }
                    },
                }
            },
        }
        self.connect_nodes(at, dest);
        let lines: Vec<String> = Vec::new();
        proof {
            assert(texts(lines@) =~= Seq::<Seq<char>>::empty());
        }
        Step::Show { lines, next: dest }
    }
}

} // verus!
