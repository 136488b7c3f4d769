//! Nodes of a dialogue: a line that leads on by itself, and a choice whose
//! next node depends on the option that a reply names.

use vstd::prelude::*;
use crate::text::{option_line, option_text, texts};

verus! {

/// What a node is, as plain values.
pub enum NodeModel {
    /// A line of text and the id that follows it.
    Line { text: Seq<char>, next: u32 },
    /// A prompt, its options in the order they are shown (label and destination
    /// id), and the id last set as its successor.
    Choice { prompt: Seq<char>, choices: Seq<(Seq<char>, u32)>, next: u32 },
}

/// Whether `i` is the first position of `choices` whose label is `label`.
pub open spec fn first_at(choices: Seq<(Seq<char>, u32)>, label: Seq<char>, i: int) -> bool {
    &&& 0 <= i < choices.len()
    &&& choices[i].0 == label
    &&& forall|j: int| 0 <= j < i ==> choices[j].0 != label
}

/// Whether some option of `choices` has the label `label`.
pub open spec fn has_label(choices: Seq<(Seq<char>, u32)>, label: Seq<char>) -> bool {
    exists|i: int| first_at(choices, label, i)
}

/// The destination of the option labelled `label`, if there is one.
pub open spec fn lookup(choices: Seq<(Seq<char>, u32)>, label: Seq<char>) -> Option<u32> {
    if has_label(choices, label) {
        Some(choices[choose|i: int| first_at(choices, label, i)].1)
    } else {
        None
    }
}

/// The options after `label` is inserted with destination `dest`: an option
/// with that label keeps its place and takes the new destination; otherwise
/// the option is added at the end.
pub open spec fn insert_choice(choices: Seq<(Seq<char>, u32)>, label: Seq<char>, dest: u32) -> Seq<
    (Seq<char>, u32),
> {
    if has_label(choices, label) {
        choices.update(choose|i: int| first_at(choices, label, i), (label, dest))
    } else {
        choices.push((label, dest))
    }
}

/// The labels of a sequence of options, in order.
pub open spec fn labels(choices: Seq<(Seq<char>, u32)>) -> Seq<Seq<char>> {
    choices.map_values(|c: (Seq<char>, u32)| c.0)
}

/// The first position of a label is unique.
pub proof fn lemma_first_at_unique(choices: Seq<(Seq<char>, u32)>, label: Seq<char>, i: int, k: int)
    requires
        first_at(choices, label, i),
        first_at(choices, label, k),
    ensures
        i == k,
{
}

/// An option whose label is `label` anywhere among `choices` has a first position.
pub proof fn lemma_label_found(choices: Seq<(Seq<char>, u32)>, label: Seq<char>, i: int)
    requires
        0 <= i < choices.len(),
        choices[i].0 == label,
    ensures
        has_label(choices, label),
    decreases i,
{
    if exists|j: int| 0 <= j < i && choices[j].0 == label {
        let j = choose|j: int| 0 <= j < i && choices[j].0 == label;
        lemma_label_found(choices, label, j);
    } else {
        assert(first_at(choices, label, i));
    }
}

/// Inserting an option under a label already present gives that label the
/// new destination, in the same place: the number of options and their labels
/// stay as they were.
pub proof fn lemma_reinsert_replaces(choices: Seq<(Seq<char>, u32)>, label: Seq<char>, dest: u32)
    requires
        exists|i: int| 0 <= i < choices.len() && choices[i].0 == label,
    ensures
        insert_choice(choices, label, dest).len() == choices.len(),
        labels(insert_choice(choices, label, dest)) == labels(choices),
        lookup(insert_choice(choices, label, dest), label) == Some(dest),
{
    let i = choose|i: int| 0 <= i < choices.len() && choices[i].0 == label;
    lemma_label_found(choices, label, i);
    let k = choose|k: int| first_at(choices, label, k);
    let after = insert_choice(choices, label, dest);
    assert(labels(after) =~= labels(choices));
    assert(first_at(after, label, k));
    let k2 = choose|k2: int| first_at(after, label, k2);
    lemma_first_at_unique(after, label, k, k2);
}

/// The labels of `s` in the order each first occurs, each once.
pub open spec fn first_occurrences(s: Seq<Seq<char>>) -> Seq<Seq<char>>
    decreases s.len(),
{
    if s.len() == 0 {
        Seq::empty()
    } else {
        let before = first_occurrences(s.drop_last());
        if before.contains(s.last()) {
            before
        } else {
            before.push(s.last())
        }
    }
}

/// The options of a choice that starts with none and has `inserted` inserted,
/// in that order.
pub open spec fn fill(inserted: Seq<(Seq<char>, u32)>) -> Seq<(Seq<char>, u32)>
    decreases inserted.len(),
{
    if inserted.len() == 0 {
        Seq::empty()
    } else {
        let last = inserted.last();
        insert_choice(fill(inserted.drop_last()), last.0, last.1)
    }
}

/// Options are shown in the order their labels were first inserted, each
/// label once, however often a label is inserted again.
pub proof fn lemma_fill_keeps_order(inserted: Seq<(Seq<char>, u32)>)
    ensures
        labels(fill(inserted)) == first_occurrences(labels(inserted)),
    decreases inserted.len(),
{
    if inserted.len() > 0 {
        let rest = inserted.drop_last();
        let last = inserted.last();
        lemma_fill_keeps_order(rest);
        let before = fill(rest);
        assert(labels(inserted).drop_last() =~= labels(rest));
        if labels(before).contains(last.0) {
            let i = choose|i: int| 0 <= i < labels(before).len() && labels(before)[i] == last.0;
            lemma_reinsert_replaces(before, last.0, last.1);
        } else {
            assert(!has_label(before, last.0)) by {
                if has_label(before, last.0) {
                    let k = choose|k: int| first_at(before, last.0, k);
                    assert(labels(before)[k] == last.0);
                }
            }
            assert(labels(fill(inserted)) =~= labels(before).push(last.0));
        }
    }
}

impl NodeModel {
    /// The id this node leads to when no choice is made on the way.
    pub open spec fn next_id(self) -> u32 {
        match self {
            NodeModel::Line { next, .. } => next,
            NodeModel::Choice { next, .. } => next,
        }
    }

    /// This node with its successor set to `id`, all else kept.
    pub open spec fn with_next(self, id: u32) -> NodeModel {
        match self {
            NodeModel::Line { text, .. } => NodeModel::Line { text, next: id },
            NodeModel::Choice { prompt, choices, .. } => NodeModel::Choice { prompt, choices, next: id },
        }
    }

    /// This choice after the option `label`, leading to `dest`, is inserted
    /// into it (see `insert_choice`); a line has no options and stays as it is.
    pub open spec fn with_option(self, label: Seq<char>, dest: u32) -> NodeModel {
        match self {
            NodeModel::Line { .. } => self,
            NodeModel::Choice { prompt, choices, next } => NodeModel::Choice {
                prompt,
                choices: insert_choice(choices, label, dest),
                next,
            },
        }
    }

    /// The options of a choice; a line has none.
    pub open spec fn choices(self) -> Seq<(Seq<char>, u32)> {
        match self {
            NodeModel::Line { .. } => Seq::empty(),
            NodeModel::Choice { choices, .. } => choices,
        }
    }

    /// The lines shown when this node is visited: a line's text; a choice's
    /// prompt followed by one line per option, in order.
    pub open spec fn shown(self) -> Seq<Seq<char>> {
        match self {
            NodeModel::Line { text, .. } => seq![text],
            NodeModel::Choice { prompt, choices, .. } => seq![prompt] + choices.map_values(
                |c: (Seq<char>, u32)| option_line(c.0),
            ),
        }
    }
}

/// A unit of a dialogue: it shows some lines and leads to a next id.
pub trait Node: Sized + View<V = NodeModel> {
    /// The lines shown when this node is visited.
    fn print(&self) -> (r: Vec<String>)
        ensures
            texts(r@) == self@.shown(),
    ;

    /// Sets the id this node leads to.
    fn connect(&mut self, id: u32)
        ensures
            final(self)@ == old(self)@.with_next(id),
    ;

    /// The id this node leads to.
    fn successor(&self) -> (r: u32)
        ensures
            r == self@.next_id(),
    ;
}

/// A line of dialogue with a fixed successor.
pub struct DNode {
    next_node: u32,
    text: String,
}

impl View for DNode {
    type V = NodeModel;

    closed spec fn view(&self) -> NodeModel {
        NodeModel::Line { text: self.text@, next: self.next_node }
    }
}

/// A line node is viewed as a line.
pub proof fn lemma_line_view(n: &DNode)
    ensures
        n@ is Line,
{
}

impl DNode {
    /// A line showing `text` that leads to the terminal id.
    pub fn new(text: String) -> (r: DNode)
        ensures
            r@ == (NodeModel::Line { text: text@, next: 0 }),
    {
        DNode { next_node: 0, text }
    }
}

impl Node for DNode {
    fn print(&self) -> (r: Vec<String>) {
        let mut lines: Vec<String> = Vec::new();
        lines.push(self.text.clone());
        proof {
            assert(texts(lines@) =~= self@.shown());
        }
        lines
    }

    fn connect(&mut self, id: u32) {
        self.next_node = id;
    }

    fn successor(&self) -> (r: u32) {
        self.next_node
    }
}

/// A choice: a prompt and labelled options, each leading to its own id.
pub struct QNode {
    next_node: u32,
    text: String,
    options: Vec<(String, u32)>,
}

impl View for QNode {
    type V = NodeModel;

    closed spec fn view(&self) -> NodeModel {
        NodeModel::Choice {
            prompt: self.text@,
            choices: self.options@.map_values(|o: (String, u32)| (o.0@, o.1)),
            next: self.next_node,
        }
    }
}

/// A choice node is viewed as a choice.
pub proof fn lemma_choice_view(n: &QNode)
    ensures
        n@ is Choice,
{
}

impl QNode {
    /// A choice showing `text`, with no options yet, leading to the terminal id.
    pub fn new(text: String) -> (r: QNode)
        ensures
            r@ == (NodeModel::Choice { prompt: text@, choices: Seq::empty(), next: 0 }),
    {
        let r = QNode { next_node: 0, text, options: Vec::new() };
        proof {
            assert(r.options@.map_values(|o: (String, u32)| (o.0@, o.1)) =~= Seq::empty());
        }
        r
    }

    /// Adds the option `option`, leading to `correlated_node_id`. An option with
    /// the same label keeps its place and takes the new destination.
    pub fn insert_option(&mut self, option: String, correlated_node_id: u32)
        ensures
            final(self)@ == old(self)@.with_option(option@, correlated_node_id),
    {
        let ghost before = self@.choices();
        let ghost label = option@;
        let mut i: usize = 0;
        while i < self.options.len()
            invariant
                i <= self.options@.len(),
                self@ == old(self)@,
                before == self@.choices(),
                label == option@,
                forall|j: int| 0 <= j < i ==> before[j].0 != label,
            decreases self.options@.len() - i,
        {
            if self.options[i].0 == option {
                proof {
                    assert(first_at(before, label, i as int));
                    assert forall|k: int| first_at(before, label, k) implies k == i by {
                        lemma_first_at_unique(before, label, i as int, k);
                    }
                }
                self.options.set(i, (option, correlated_node_id));
                proof {
                    assert(self@.choices() =~= insert_choice(before, label, correlated_node_id));
                }
                return;
            }
            i += 1;
        }
        proof {
            assert(!has_label(before, label));
        }
        self.options.push((option, correlated_node_id));
        proof {
            assert(self@.choices() =~= insert_choice(before, label, correlated_node_id));
        }
    }

    /// The destination of the option whose label is `label`, if any.
    pub fn destination(&self, label: &String) -> (r: Option<u32>)
        ensures
            r == lookup(self@.choices(), label@),
    {
        let ghost choices = self@.choices();
        let mut i: usize = 0;
        while i < self.options.len()
            invariant
                i <= self.options@.len(),
                choices == self@.choices(),
                forall|j: int| 0 <= j < i ==> choices[j].0 != label@,
            decreases self.options@.len() - i,
        {
            if self.options[i].0 == *label {
                proof {
                    assert(first_at(choices, label@, i as int));
                    let k = choose|k: int| first_at(choices, label@, k);
                    lemma_first_at_unique(choices, label@, i as int, k);
                }
                return Some(self.options[i].1);
            }
            i += 1;
        }
        None
    }
}

impl Node for QNode {
    fn print(&self) -> (r: Vec<String>) {
        let ghost choices = self@.choices();
        let mut lines: Vec<String> = Vec::new();
        lines.push(self.text.clone());
        let mut i: usize = 0;
        while i < self.options.len()
            invariant
                i <= self.options@.len(),
                choices == self@.choices(),
                texts(lines@) == seq![self.text@] + choices.subrange(0, i as int).map_values(
                    |c: (Seq<char>, u32)| option_line(c.0),
                ),
            decreases self.options@.len() - i,
        {
            let line = option_text(&self.options[i].0);
            let ghost prev = lines@;
            lines.push(line);
            proof {
                let f = |c: (Seq<char>, u32)| option_line(c.0);
                assert(choices[i as int].0 == self.options@[i as int].0@);
                assert(choices.subrange(0, i + 1) =~= choices.subrange(0, i as int).push(
                    choices[i as int],
                ));
                assert(choices.subrange(0, i + 1).map_values(f) =~= choices.subrange(
                    0,
                    i as int,
                ).map_values(f).push(f(choices[i as int])));
                assert(texts(lines@) =~= texts(prev).push(option_line(choices[i as int].0)));
            }
            i += 1;
        }
        proof {
            assert(choices.subrange(0, i as int) =~= choices);
        }
        lines
    }

    fn connect(&mut self, id: u32) {
        self.next_node = id;
    }

    fn successor(&self) -> (r: u32) {
        self.next_node
    }
}

/// A node of either kind, as a dialogue stores it.
pub enum AnyNode {
    Line(DNode),
    Choice(QNode),
}

impl View for AnyNode {
    type V = NodeModel;

    open spec fn view(&self) -> NodeModel {
        match self {
            AnyNode::Line(n) => n@,
            AnyNode::Choice(n) => n@,
        }
    }
}

impl Node for AnyNode {
    fn print(&self) -> (r: Vec<String>) {
        match self {
            AnyNode::Line(n) => n.print(),
            AnyNode::Choice(n) => n.print(),
        }
    }

    fn connect(&mut self, id: u32) {
        match self {
            AnyNode::Line(n) => n.connect(id),
            AnyNode::Choice(n) => n.connect(id),
        }
    }

    fn successor(&self) -> (r: u32) {
        match self {
            AnyNode::Line(n) => n.successor(),
            AnyNode::Choice(n) => n.successor(),
        }
    }
}

} // verus!
