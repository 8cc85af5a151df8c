//! Trees written as indented lines: a line holds the name of a node, and
//! the lines below it that are indented two spaces further hold its
//! children.

use crate::edit::chars_of;
use vstd::prelude::*;

verus! {

/// A named node and the nodes below it.
#[derive(Debug, PartialEq)]
pub struct Node {
    pub name: String,
    pub children: Vec<Node>,
}

/// The mathematical value of a [`Node`].
pub struct Tree {
    pub name: Seq<char>,
    pub children: Seq<Tree>,
}

/// The value of `node`: its name, and the values of its children.
pub open spec fn tree_of(node: Node) -> Tree
    decreases node,
{
    Tree {
        name: node.name@,
        children: Seq::new(
            node.children@.len(),
            |i: int|
                if 0 <= i < node.children@.len() {
                    tree_of(node.children@[i])
                } else {
                    arbitrary()
                },
        ),
    }
}

impl View for Node {
    type V = Tree;

    open spec fn view(&self) -> Tree {
        tree_of(*self)
    }
}

/// The values of a list of nodes.
pub open spec fn trees(nodes: Seq<Node>) -> Seq<Tree> {
    nodes.map_values(|node: Node| node@)
}

/// Why a text is not what the grammar asks for.
#[derive(Debug, Clone, Copy, PartialEq, Eq, Structural)]
pub enum ErrorKind {
    /// A name was expected, and the text ends or goes on with white
    /// space.
    IsNot,
    /// An indentation of two spaces was expected.
    Tag,
    /// The end of the text was expected.
    Eof,
}

/// A place in a text where the grammar is not met, and why.
pub struct Fault {
    pub at: int,
    pub code: ErrorKind,
}

/// What is left of a text where the grammar is not met, and why.
#[derive(Debug, PartialEq)]
pub struct ParseError {
    pub input: String,
    pub code: ErrorKind,
}

impl ParseError {
    /// Whether this error reports `fault` in `text`: it holds the text
    /// from the place of the fault on, and the same reason.
    pub open spec fn reports(&self, text: Seq<char>, fault: Fault) -> bool {
        &&& 0 <= fault.at <= text.len()
        &&& self.input@ == text.skip(fault.at)
        &&& self.code == fault.code
    }
}

/// A space or a tab.
pub open spec fn is_blank(c: char) -> bool {
    c == ' ' || c == '\t'
}

/// A carriage return or a line feed.
pub open spec fn is_break(c: char) -> bool {
    c == '\r' || c == '\n'
}

/// The first place from `at` on where no blank stands.
pub open spec fn blanks_end(s: Seq<char>, at: int) -> int
    decreases s.len() - at,
{
    if 0 <= at < s.len() && is_blank(s[at]) {
        blanks_end(s, at + 1)
    } else {
        at
    }
}

/// The first place from `at` on where the line ends: where a carriage
/// return or a line feed stands, or the text is over.
pub open spec fn line_end(s: Seq<char>, at: int) -> int
    decreases s.len() - at,
{
    if 0 <= at < s.len() && !is_break(s[at]) {
        line_end(s, at + 1)
    } else {
        at
    }
}

/// A name starts at `at` if a character stands there that is neither a
/// blank nor a line break. The name then runs to the end of the line,
/// blanks inside it and behind it included. The result is the place
/// behind the name.
pub open spec fn key_end(s: Seq<char>, at: int) -> Result<int, Fault> {
    if 0 <= at < s.len() && !is_blank(s[at]) && !is_break(s[at]) {
        Ok(line_end(s, at))
    } else {
        Err(Fault { at, code: ErrorKind::IsNot })
    }
}

/// An empty line at `at`: blanks, if any, and then a line feed, or a
/// carriage return and a line feed. The result is the place behind it,
/// and `None` where no empty line stands at `at`.
pub open spec fn empty_line_end(s: Seq<char>, at: int) -> Option<int> {
    let end = blanks_end(s, at);
    if 0 <= end < s.len() && s[end] == '\n' {
        Some(end + 1)
    } else if 0 <= end && end + 1 < s.len() && s[end] == '\r' && s[end + 1] == '\n' {
        Some(end + 2)
    } else {
        None
    }
}

/// The place behind all the empty lines that stand at `at`, one after
/// another.
pub open spec fn empty_lines_end(s: Seq<char>, at: int) -> int
    decreases s.len() - at,
{
    match empty_line_end(s, at) {
        Some(next) => {
            proof {
                lemma_blanks_end(s, at);
            }
            empty_lines_end(s, next)
        },
        None => at,
    }
}

/// The place behind `depth` indentations of two spaces each that stand
/// at `at`; where one of them is missing, the fault at its place.
pub open spec fn indent_end(s: Seq<char>, depth: nat, at: int) -> Result<int, Fault>
    decreases depth,
{
    if depth == 0 {
        Ok(at)
    } else if 0 <= at && at + 1 < s.len() && s[at] == ' ' && s[at + 1] == ' ' {
        indent_end(s, (depth - 1) as nat, at + 2)
    } else {
        Err(Fault { at, code: ErrorKind::Tag })
    }
}

/// The place behind a name that stands at `at` behind `depth`
/// indentations.
pub open spec fn indented_key_end(s: Seq<char>, depth: nat, at: int) -> Result<int, Fault> {
    match indent_end(s, depth, at) {
        Ok(start) => key_end(s, start),
        Err(fault) => Err(fault),
    }
}

/// The node that stands at `at` at the given depth, and the place behind
/// it: its name is indented `depth` times; empty lines may follow the
/// name; its children are the nodes that follow at the next depth.
pub open spec fn node_at(s: Seq<char>, depth: nat, at: int) -> Result<(int, Tree), Fault>
    decreases s.len() - at, 0nat,
{
    match indent_end(s, depth, at) {
        Ok(start) => match key_end(s, start) {
            Ok(end) => {
                proof {
                    lemma_indent_end(s, depth, at);
                    lemma_line_end(s, start);
                    lemma_empty_lines_end(s, end);
                }
                let (rest, children) = node_list_at(s, depth + 1, empty_lines_end(s, end));
                Ok((rest, Tree { name: s.subrange(start, end), children }))
            },
            Err(fault) => Err(fault),
        },
        Err(fault) => Err(fault),
    }
}

/// The nodes that stand at `at` at the given depth, one after another,
/// and the place behind the last of them. The list ends where no node
/// stands; a node takes up at least its name, so the list goes on behind
/// it.
pub open spec fn node_list_at(s: Seq<char>, depth: nat, at: int) -> (int, Seq<Tree>)
    decreases s.len() - at, 1nat,
{
    match node_at(s, depth, at) {
        Ok((next, first)) => {
            if at < next <= s.len() {
                let (rest, others) = node_list_at(s, depth, next);
                (rest, seq![first] + others)
            } else {
                (at, Seq::empty())
            }
        },
        Err(_) => (at, Seq::empty()),
    }
}

/// The whole of `s` as a list of nodes at depth zero; where the list
/// ends before the text does, the fault at that place.
pub open spec fn tree_list(s: Seq<char>) -> Result<Seq<Tree>, Fault> {
    let (rest, nodes) = node_list_at(s, 0, 0);
    if rest == s.len() {
        Ok(nodes)
    } else {
        Err(Fault { at: rest, code: ErrorKind::Eof })
    }
}

/// Blanks are skipped forwards, and not beyond the text: from `at` up to
/// the place found only blanks stand, and none stands at that place.
pub proof fn lemma_blanks_end(s: Seq<char>, at: int)
    ensures
        at <= blanks_end(s, at),
        at <= s.len() ==> blanks_end(s, at) <= s.len(),
        forall|i: int| 0 <= at <= i < blanks_end(s, at) ==> is_blank(#[trigger] s[i]),
        0 <= blanks_end(s, at) < s.len() ==> !is_blank(s[blanks_end(s, at)]),
    decreases s.len() - at,
{
    if 0 <= at < s.len() && is_blank(s[at]) {
        lemma_blanks_end(s, at + 1);
    }
}

/// A line ends at or behind the place it is looked for from, and within
/// the text; behind a character that is no line break it ends later. From
/// `at` up to the place found no line break stands, and one stands at
/// that place unless the text is over there.
pub proof fn lemma_line_end(s: Seq<char>, at: int)
    ensures
        at <= line_end(s, at),
        at <= s.len() ==> line_end(s, at) <= s.len(),
        0 <= at < s.len() && !is_break(s[at]) ==> at < line_end(s, at),
        forall|i: int| 0 <= at <= i < line_end(s, at) ==> !is_break(#[trigger] s[i]),
        0 <= line_end(s, at) < s.len() ==> is_break(s[line_end(s, at)]),
    decreases s.len() - at,
{
    if 0 <= at < s.len() && !is_break(s[at]) {
        lemma_line_end(s, at + 1);
    }
}

/// Empty lines are skipped forwards, and not beyond the text.
pub proof fn lemma_empty_lines_end(s: Seq<char>, at: int)
    ensures
        at <= empty_lines_end(s, at),
        at <= s.len() ==> empty_lines_end(s, at) <= s.len(),
    decreases s.len() - at,
{
    lemma_blanks_end(s, at);
    if let Some(next) = empty_line_end(s, at) {
        lemma_empty_lines_end(s, next);
    }
}

/// `depth` indentations take up twice as many places.
pub proof fn lemma_indent_end(s: Seq<char>, depth: nat, at: int)
    ensures
        match indent_end(s, depth, at) {
            Ok(start) => start == at + 2 * depth && (depth > 0 ==> 0 <= at && start <= s.len()),
            Err(fault) => at <= fault.at < at + 2 * depth && fault.code == ErrorKind::Tag && (at
                <= s.len() ==> fault.at <= s.len()),
        },
    decreases depth,
{
    if depth > 0 && 0 <= at && at + 1 < s.len() && s[at] == ' ' && s[at + 1] == ' ' {
        lemma_indent_end(s, (depth - 1) as nat, at + 2);
    }
}

/// The empty lines that stand at `at`, one after another: of each, its
/// blanks and its line ending.
pub open spec fn empty_lines_at(s: Seq<char>, at: int) -> Seq<(Seq<char>, Seq<char>)>
    decreases s.len() - at,
{
    match empty_line_end(s, at) {
        Some(next) => {
            proof {
                lemma_blanks_end(s, at);
            }
            seq![(s.subrange(at, blanks_end(s, at)), s.subrange(blanks_end(s, at), next))]
                + empty_lines_at(s, next)
        },
        None => Seq::empty(),
    }
}

/// A node takes up at least one character, and ends within the text.
pub proof fn lemma_node_at(s: Seq<char>, depth: nat, at: int)
    requires
        0 <= at <= s.len(),
    ensures
        node_at(s, depth, at) matches Ok((rest, _)) ==> at < rest <= s.len(),
        node_at(s, depth, at) matches Err(fault) ==> at <= fault.at <= s.len(),
        at <= node_list_at(s, depth, at).0 <= s.len(),
    decreases s.len() - at, 1nat,
{
    lemma_indent_end(s, depth, at);
    if let Ok(start) = indent_end(s, depth, at) {
        if let Ok(end) = key_end(s, start) {
            lemma_line_end(s, start);
            lemma_empty_lines_end(s, end);
            lemma_node_list_at(s, depth + 1, empty_lines_end(s, end));
        }
    }
    lemma_node_list_at(s, depth, at);
}

/// A list of nodes ends at or behind the place where it starts, and
/// within the text.
pub proof fn lemma_node_list_at(s: Seq<char>, depth: nat, at: int)
    requires
        0 <= at <= s.len(),
    ensures
        at <= node_list_at(s, depth, at).0 <= s.len(),
    decreases s.len() - at, 0nat,
{
    lemma_indent_end(s, depth, at);
    if let Ok(start) = indent_end(s, depth, at) {
        if let Ok(end) = key_end(s, start) {
            lemma_line_end(s, start);
            lemma_empty_lines_end(s, end);
            lemma_node_list_at(s, depth + 1, empty_lines_end(s, end));
            let next = node_at(s, depth, at)->Ok_0.0;
            if at < next <= s.len() {
                lemma_node_list_at(s, depth, next);
            }
        }
    }
}

/// Whether `name` can be the name of a node: it is not empty, it starts
/// with a character that is no blank, and it holds no line break.
pub open spec fn is_name(name: Seq<char>) -> bool {
    &&& name.len() > 0
    &&& !is_blank(name[0])
    &&& forall|i: int| 0 <= i < name.len() ==> !is_break(#[trigger] name[i])
}

/// Whether every node of `tree` has a name.
pub open spec fn well_named(tree: Tree) -> bool
    decreases tree,
{
    &&& is_name(tree.name)
    &&& forall|i: int| 0 <= i < tree.children.len() ==> well_named(#[trigger] tree.children[i])
}

/// Every node that the grammar finds has a name, and so has every node
/// below it.
pub proof fn lemma_nodes_are_well_named(s: Seq<char>, depth: nat, at: int)
    requires
        0 <= at <= s.len(),
    ensures
        node_at(s, depth, at) matches Ok((_, tree)) ==> well_named(tree),
        forall|i: int|
            0 <= i < node_list_at(s, depth, at).1.len() ==> well_named(
                #[trigger] node_list_at(s, depth, at).1[i],
            ),
    decreases s.len() - at, 1nat,
{
    lemma_named_node(s, depth, at);
    if let Ok((next, first)) = node_at(s, depth, at) {
        lemma_node_at(s, depth, at);
        lemma_nodes_are_well_named(s, depth, next);
        let list = node_list_at(s, depth, at).1;
        let others = node_list_at(s, depth, next).1;
        assert forall|i: int| 0 <= i < list.len() implies well_named(#[trigger] list[i]) by {
            if i > 0 {
                assert(list[i] == others[i - 1]);
            }
        }
    }
}

/// A node that the grammar finds has a name, and so has every node below
/// it.
proof fn lemma_named_node(s: Seq<char>, depth: nat, at: int)
    requires
        0 <= at <= s.len(),
    ensures
        node_at(s, depth, at) matches Ok((_, tree)) ==> well_named(tree),
    decreases s.len() - at, 0nat,
{
    lemma_indent_end(s, depth, at);
    if let Ok(start) = indent_end(s, depth, at) {
        if let Ok(end) = key_end(s, start) {
            lemma_line_end(s, start);
            lemma_empty_lines_end(s, end);
            lemma_nodes_are_well_named(s, depth + 1, empty_lines_end(s, end));
            let tree = node_at(s, depth, at)->Ok_0.1;
            assert(tree.children == node_list_at(s, depth + 1, empty_lines_end(s, end)).1);
            assert forall|i: int| 0 <= i < tree.name.len() implies !is_break(
                #[trigger] tree.name[i],
            ) by {
                assert(tree.name[i] == s[start + i]);
            }
        }
    }
}

/// The children of the value of a node are the values of its children.
pub proof fn lemma_children_of_view(node: Node)
    ensures
        node@.children == trees(node.children@),
{
}

/// A place in a text where the grammar is not met, and why.
struct Stop {
    at: usize,
    code: ErrorKind,
}

impl View for Stop {
    type V = Fault;

    closed spec fn view(&self) -> Fault {
        Fault { at: self.at as int, code: self.code }
    }
}

/// The characters of `chars` from `from` up to `to`, as a string.
fn text_between(chars: &Vec<char>, from: usize, to: usize) -> (text: String)
    requires
        from <= to <= chars@.len(),
    ensures
        text@ == chars@.subrange(from as int, to as int),
{
    let mut text = String::new();
    let mut index: usize = from;
    while index < to
        invariant
            from <= index <= to <= chars@.len(),
            text@ == chars@.subrange(from as int, index as int),
        decreases to - index,
    {
        text.push(chars[index]);
        assert(chars@.subrange(from as int, index as int + 1) =~= chars@.subrange(
            from as int,
            index as int,
        ).push(chars@[index as int]));
        index += 1;
    }
    text
}

/// The place behind the blanks that stand at `at`.
fn skip_blanks(chars: &Vec<char>, at: usize) -> (end: usize)
    requires
        at <= chars@.len(),
    ensures
        end == blanks_end(chars@, at as int),
        at <= end <= chars@.len(),
{
    let mut end = at;
    while end < chars.len() && (chars[end] == ' ' || chars[end] == '\t')
        invariant
            at <= end <= chars@.len(),
            blanks_end(chars@, at as int) == blanks_end(chars@, end as int),
        decreases chars@.len() - end,
    {
        end += 1;
    }
    end
}

/// The place where the line that holds `at` ends.
fn find_line_end(chars: &Vec<char>, at: usize) -> (end: usize)
    requires
        at <= chars@.len(),
    ensures
        end == line_end(chars@, at as int),
        at <= end <= chars@.len(),
{
    let mut end = at;
    while end < chars.len() && chars[end] != '\r' && chars[end] != '\n'
        invariant
            at <= end <= chars@.len(),
            line_end(chars@, at as int) == line_end(chars@, end as int),
        decreases chars@.len() - end,
    {
        end += 1;
    }
    end
}

/// The place behind the name that stands at `at`.
fn parse_key(chars: &Vec<char>, at: usize) -> (end: Result<usize, Stop>)
    requires
        at <= chars@.len(),
    ensures
        match key_end(chars@, at as int) {
            Ok(place) => end matches Ok(e) && e == place && at < e <= chars@.len(),
            Err(fault) => end matches Err(stop) && stop@ == fault,
        },
{
    if at < chars.len() && chars[at] != ' ' && chars[at] != '\t' && chars[at] != '\r' && chars[at]
        != '\n' {
        proof {
            lemma_line_end(chars@, at as int);
        }
        Ok(find_line_end(chars, at))
    } else {
        Err(Stop { at, code: ErrorKind::IsNot })
    }
}

/// The place behind the empty line that stands at `at`, if one does.
fn skip_empty_line(chars: &Vec<char>, at: usize) -> (next: Option<usize>)
    requires
        at <= chars@.len(),
    ensures
        match empty_line_end(chars@, at as int) {
            Some(place) => next matches Some(n) && n == place && at < place <= chars@.len(),
            None => next.is_none(),
        },
        at <= blanks_end(chars@, at as int) <= chars@.len(),
{
    let end = skip_blanks(chars, at);
    if end < chars.len() && chars[end] == '\n' {
        Some(end + 1)
    } else if end < chars.len() && chars.len() - end >= 2 && chars[end] == '\r' && chars[end + 1]
        == '\n' {
        Some(end + 2)
    } else {
        None
    }
}

/// The place behind the empty lines that stand at `at`.
fn skip_empty_lines(chars: &Vec<char>, at: usize) -> (below: usize)
    requires
        at <= chars@.len(),
    ensures
        below == empty_lines_end(chars@, at as int),
        at <= below <= chars@.len(),
{
    let mut end = at;
    loop
        invariant
            at <= end <= chars@.len(),
            empty_lines_end(chars@, at as int) == empty_lines_end(chars@, end as int),
        decreases chars@.len() - end,
    {
        match skip_empty_line(chars, end) {
            Some(next) => {
                end = next;
            },
            None => {
                return end;
            },
        }
    }
}

/// The place behind `depth` indentations that stand at `at`.
fn parse_indent(chars: &Vec<char>, depth: usize, at: usize) -> (end: Result<usize, Stop>)
    requires
        at <= chars@.len(),
    ensures
        match indent_end(chars@, depth as nat, at as int) {
            Ok(place) => end matches Ok(e) && e == place && e == at + 2 * depth && e
                <= chars@.len(),
            Err(fault) => end matches Err(stop) && stop@ == fault,
        },
{
    let mut done: usize = 0;
    let mut end = at;
    while done < depth
        invariant
            done <= depth,
            at <= end <= chars@.len(),
            end == at + 2 * done,
            indent_end(chars@, depth as nat, at as int) == indent_end(
                chars@,
                (depth - done) as nat,
                end as int,
            ),
        decreases depth - done,
    {
        if chars.len() - end >= 2 && chars[end] == ' ' && chars[end + 1] == ' ' {
            end += 2;
            done += 1;
        } else {
            return Err(Stop { at: end, code: ErrorKind::Tag });
        }
    }
    Ok(end)
}

/// The place behind the name that stands at `at` behind `depth`
/// indentations, and the place where the name starts.
fn parse_indented_key(chars: &Vec<char>, depth: usize, at: usize) -> (found: Result<
    (usize, usize),
    Stop,
>)
    requires
        at <= chars@.len(),
    ensures
        match indented_key_end(chars@, depth as nat, at as int) {
            Ok(place) => found matches Ok((start, end)) && end == place && indent_end(
                chars@,
                depth as nat,
                at as int,
            ) == Ok::<int, Fault>(start as int) && start == at + 2 * depth && start < end
                <= chars@.len(),
            Err(fault) => found matches Err(stop) && stop@ == fault,
        },
{
    match parse_indent(chars, depth, at) {
        Ok(start) => match parse_key(chars, start) {
            Ok(end) => Ok((start, end)),
            Err(stop) => Err(stop),
        },
        Err(stop) => Err(stop),
    }
}

/// The node that stands at `at` at the given depth, and the place behind
/// it.
fn parse_node(chars: &Vec<char>, depth: usize, at: usize) -> (found: Result<(usize, Node), Stop>)
    requires
        at <= chars@.len(),
    ensures
        match node_at(chars@, depth as nat, at as int) {
            Ok((place, tree)) => found matches Ok((rest, node)) && rest == place && node@ == tree
                && at < rest <= chars@.len(),
            Err(fault) => found matches Err(stop) && stop@ == fault,
        },
    decreases chars@.len() - at, 0nat,
{
    match parse_indented_key(chars, depth, at) {
        Ok((start, end)) => {
            let name = text_between(chars, start, end);
            let below = skip_empty_lines(chars, end);
            let (rest, children) = parse_node_list(chars, depth + 1, below);
            let node = Node { name, children };
            proof {
                lemma_children_of_view(node);
            }
            Ok((rest, node))
        },
        Err(stop) => Err(stop),
    }
}

/// The nodes that stand at `at` at the given depth, and the place behind
/// the last of them.
fn parse_node_list(chars: &Vec<char>, depth: usize, at: usize) -> (found: (usize, Vec<Node>))
    requires
        at <= chars@.len(),
    ensures
        found.0 == node_list_at(chars@, depth as nat, at as int).0,
        trees(found.1@) == node_list_at(chars@, depth as nat, at as int).1,
        at <= found.0 <= chars@.len(),
    decreases chars@.len() - at, 1nat,
{
    let mut nodes: Vec<Node> = Vec::new();
    let mut end = at;
    proof {
        assert(trees(nodes@) + node_list_at(chars@, depth as nat, at as int).1
            =~= node_list_at(chars@, depth as nat, at as int).1);
    }
    loop
        invariant
            at <= end <= chars@.len(),
            node_list_at(chars@, depth as nat, at as int).0 == node_list_at(
                chars@,
                depth as nat,
                end as int,
            ).0,
            node_list_at(chars@, depth as nat, at as int).1 == trees(nodes@) + node_list_at(
                chars@,
                depth as nat,
                end as int,
            ).1,
        decreases chars@.len() - end,
    {
        match parse_node(chars, depth, end) {
            Ok((next, node)) => {
                nodes.push(node);
                end = next;
            },
            Err(_) => {
                return (end, nodes);
            },
        }
    }
}

/// What is left of `chars` from `stop` on, and why parsing stopped.
fn error_at(chars: &Vec<char>, stop: Stop) -> (error: ParseError)
    requires
        stop.at <= chars@.len(),
    ensures
        error.reports(chars@, stop@),
{
    ParseError { input: text_between(chars, stop.at, chars.len()), code: stop.code }
}

/// A name at the start of `input`: a character that is neither a blank
/// nor a line break, and all that follows it on its line. The result is
/// what is left of the input behind the name, and the name.
pub fn key(input: &str) -> (found: Result<(String, String), ParseError>)
    ensures
        match key_end(input@, 0) {
            Ok(end) => found matches Ok((rest, name)) && name@ == input@.take(end) && rest@
                == input@.skip(end),
            Err(fault) => found matches Err(error) && error.reports(input@, fault),
        },
{
    let chars = chars_of(input);
    match parse_key(&chars, 0) {
        Ok(end) => Ok((text_between(&chars, end, chars.len()), text_between(&chars, 0, end))),
        Err(stop) => Err(error_at(&chars, stop)),
    }
}

/// The empty lines at the start of `input`: lines that hold nothing but
/// blanks. The result is what is left of the input behind them, and, of
/// each empty line, its blanks and its line ending.
pub fn empty_lines(input: &str) -> (found: (String, Vec<(String, String)>))
    ensures
        found.0@ == input@.skip(empty_lines_end(input@, 0)),
        found.1@.map_values(|line: (String, String)| (line.0@, line.1@)) == empty_lines_at(
            input@,
            0,
        ),
{
    let chars = chars_of(input);
    let mut lines: Vec<(String, String)> = Vec::new();
    let mut at: usize = 0;
    proof {
        assert(lines@.map_values(|line: (String, String)| (line.0@, line.1@)) + empty_lines_at(
            chars@,
            0,
        ) =~= empty_lines_at(chars@, 0));
    }
    loop
        invariant
            at <= chars@.len(),
            chars@ == input@,
            empty_lines_end(chars@, 0) == empty_lines_end(chars@, at as int),
            empty_lines_at(chars@, 0) == lines@.map_values(
                |line: (String, String)| (line.0@, line.1@),
            ) + empty_lines_at(chars@, at as int),
        decreases chars@.len() - at,
    {
        match skip_empty_line(&chars, at) {
            Some(next) => {
                let ghost before = lines@;
                let ghost others = empty_lines_at(chars@, next as int);
                let blanks_end = skip_blanks(&chars, at);
                let line = (
                    text_between(&chars, at, blanks_end),
                    text_between(&chars, blanks_end, next),
                );
                lines.push(line);
                proof {
                    let shown = |line: (String, String)| (line.0@, line.1@);
                    assert(before.map_values(shown) + (seq![shown(line)] + others)
                        =~= lines@.map_values(shown) + others);
                }
                at = next;
            },
            None => {
                proof {
                }
                return (text_between(&chars, at, chars.len()), lines);
            },
        }
    }
}

/// A name with the empty lines before it and behind it. The result is
/// what is left of the input behind those that follow the name, and the
/// name.
pub fn strip_empty_lines(input: &str) -> (found: Result<(String, String), ParseError>)
    ensures
        match key_end(input@, empty_lines_end(input@, 0)) {
            Ok(end) => found matches Ok((rest, name)) && name@ == input@.subrange(
                empty_lines_end(input@, 0),
                end,
            ) && rest@ == input@.skip(empty_lines_end(input@, end)),
            Err(fault) => found matches Err(error) && error.reports(input@, fault),
        },
{
    let chars = chars_of(input);
    let start = skip_empty_lines(&chars, 0);
    match parse_key(&chars, start) {
        Ok(end) => {
            let rest = skip_empty_lines(&chars, end);
            Ok((text_between(&chars, rest, chars.len()), text_between(&chars, start, end)))
        },
        Err(stop) => Err(error_at(&chars, stop)),
    }
}

/// A name behind `depth` indentations of two spaces each. The result is
/// what is left of the input behind the name, and the name.
pub fn indented_key(depth: usize, input: &str) -> (found: Result<(String, String), ParseError>)
    ensures
        match indented_key_end(input@, depth as nat, 0) {
            Ok(end) => found matches Ok((rest, name)) && name@ == input@.subrange(2 * depth, end)
                && rest@ == input@.skip(end),
            Err(fault) => found matches Err(error) && error.reports(input@, fault),
        },
{
    let chars = chars_of(input);
    proof {
        lemma_indent_end(chars@, depth as nat, 0);
    }
    match parse_indented_key(&chars, depth, 0) {
        Ok((start, end)) => Ok(
            (text_between(&chars, end, chars.len()), text_between(&chars, start, end)),
        ),
        Err(stop) => Err(error_at(&chars, stop)),
    }
}

/// The node at the start of `input` at the given depth. The result is
/// what is left of the input behind the node, and the node.
pub fn node(depth: usize, input: &str) -> (found: Result<(String, Node), ParseError>)
    ensures
        match node_at(input@, depth as nat, 0) {
            Ok((end, tree)) => found matches Ok((rest, node)) && node@ == tree && rest@
                == input@.skip(end),
            Err(fault) => found matches Err(error) && error.reports(input@, fault),
        },
{
    let chars = chars_of(input);
    proof {
        lemma_node_at(chars@, depth as nat, 0);
    }
    match parse_node(&chars, depth, 0) {
        Ok((end, node)) => Ok((text_between(&chars, end, chars.len()), node)),
        Err(stop) => Err(error_at(&chars, stop)),
    }
}

/// The nodes at the start of `input` at the given depth, as many as
/// stand there one after another. The result is what is left of the
/// input behind them, and the nodes; it is never an error.
pub fn node_list(depth: usize, input: &str) -> (found: Result<(String, Vec<Node>), ParseError>)
    ensures
        found matches Ok((rest, nodes)) && trees(nodes@) == node_list_at(
            input@,
            depth as nat,
            0,
        ).1 && rest@ == input@.skip(node_list_at(input@, depth as nat, 0).0),
{
    let chars = chars_of(input);
    let (end, nodes) = parse_node_list(&chars, depth, 0);
    Ok((text_between(&chars, end, chars.len()), nodes))
}

/// The whole of `input` as a list of trees: the nodes at depth zero, each
/// with the nodes below it. Where the nodes end before the input does,
/// the error holds what is left of the input.
pub fn indent_tree_list(input: &str) -> (found: Result<(String, Vec<Node>), ParseError>)
    ensures
        match tree_list(input@) {
            Ok(list) => found matches Ok((rest, nodes)) && trees(nodes@) == list && rest@.len()
                == 0,
            Err(fault) => found matches Err(error) && error.reports(input@, fault),
        },
{
    let chars = chars_of(input);
    let (end, nodes) = parse_node_list(&chars, 0, 0);
    if end == chars.len() {
        Ok((String::new(), nodes))
    } else {
        Err(error_at(&chars, Stop { at: end, code: ErrorKind::Eof }))
    }
}

} // verus!
