//! A minimal XML document tree built from the pull events of `quick_xml`.
//! The importer reads MusicXML more naturally over a tree (as Verovio
//! reads it over the pugixml DOM) than over a stream of events.

use vstd::prelude::*;

use crate::text::{owned, parse_i32, parse_trimmed_i32, trim};
use vstd::string::StringExecFns;

pub mod reader;

pub use self::reader::parse_document;

verus! {

/// The mathematical value of an XML element: its name, its attributes in
/// document order, its child elements and its own character data.
pub struct Node {
    pub name: Seq<char>,
    pub attributes: Seq<(Seq<char>, Seq<char>)>,
    pub children: Seq<Node>,
    pub text: Seq<char>,
}

/// Minimal DOM node.
#[derive(Debug)]
pub struct Element {
    pub name: String,
    pub attributes: Vec<(String, String)>,
    pub children: Vec<Element>,
    pub text: String,
}

/// The views of a sequence of attribute pairs.
pub open spec fn pairs_view(v: Seq<(String, String)>) -> Seq<(Seq<char>, Seq<char>)> {
    Seq::new(v.len(), |i: int| (v[i].0@, v[i].1@))
}

/// The view of an element.
pub open spec fn element_view(e: Element) -> Node
    decreases e,
{
    Node {
        name: e.name@,
        attributes: pairs_view(e.attributes@),
        children: elements_view(e.children@),
        text: e.text@,
    }
}

/// The views of a sequence of elements.
pub open spec fn elements_view(v: Seq<Element>) -> Seq<Node>
    decreases v,
{
    if v.len() == 0 {
        Seq::empty()
    } else {
        elements_view(v.drop_last()).push(element_view(v.last()))
    }
}

impl View for Element {
    type V = Node;

    open spec fn view(&self) -> Node {
        element_view(*self)
    }
}


/// `elements_view` has one node per element.
pub proof fn lemma_elements_view_len(v: Seq<Element>)
    ensures
        elements_view(v).len() == v.len(),
    decreases v.len(),
{
    if v.len() > 0 {
        lemma_elements_view_len(v.drop_last());
    }
}

/// `elements_view` maps each element to its view.
pub proof fn lemma_elements_view_index(v: Seq<Element>, i: int)
    requires
        0 <= i < v.len(),
    ensures
        elements_view(v)[i] == element_view(v[i]),
    decreases v.len(),
{
    lemma_elements_view_len(v.drop_last());
    if i < v.len() - 1 {
        lemma_elements_view_index(v.drop_last(), i);
    }
}

/// Pushing an element pushes its view.
pub proof fn lemma_elements_view_push(v: Seq<Element>, e: Element)
    ensures
        elements_view(v.push(e)) == elements_view(v).push(element_view(e)),
{
    assert(v.push(e).drop_last() == v);
}

/// The first of `cs` named `name`.
pub open spec fn first_named(cs: Seq<Node>, name: Seq<char>) -> Option<Node>
    decreases cs.len(),
{
    if cs.len() == 0 {
        None
    } else if cs[0].name == name {
        Some(cs[0])
    } else {
        first_named(cs.drop_first(), name)
    }
}

/// The nodes of `cs` named `name`, in order.
pub open spec fn all_named(cs: Seq<Node>, name: Seq<char>) -> Seq<Node>
    decreases cs.len(),
{
    if cs.len() == 0 {
        Seq::empty()
    } else if cs.last().name == name {
        all_named(cs.drop_last(), name).push(cs.last())
    } else {
        all_named(cs.drop_last(), name)
    }
}

/// The value of the first attribute of `attrs` whose key is `key`.
pub open spec fn first_value(attrs: Seq<(Seq<char>, Seq<char>)>, key: Seq<char>) -> Option<Seq<char>>
    decreases attrs.len(),
{
    if attrs.len() == 0 {
        None
    } else if attrs[0].0 == key {
        Some(attrs[0].1)
    } else {
        first_value(attrs.drop_first(), key)
    }
}

/// The character data of a node and all its descendants, in document
/// order (the XPath string-value).
pub open spec fn string_value(n: Node) -> Seq<char>
    decreases n,
{
    n.text + string_values(n.children)
}

/// The string-values of `cs`, concatenated.
pub open spec fn string_values(cs: Seq<Node>) -> Seq<char>
    decreases cs,
{
    if cs.len() == 0 {
        Seq::empty()
    } else {
        string_values(cs.drop_last()) + string_value(cs.last())
    }
}

impl Node {
    /// The first child element named `name`.
    pub open spec fn first(self, name: Seq<char>) -> Option<Node> {
        first_named(self.children, name)
    }

    /// The child elements named `name`, in document order.
    pub open spec fn elements(self, name: Seq<char>) -> Seq<Node> {
        all_named(self.children, name)
    }

    /// The value of the attribute `key`.
    pub open spec fn attribute(self, key: Seq<char>) -> Option<Seq<char>> {
        first_value(self.attributes, key)
    }

    /// The integer written, between optional whitespace, in the first child
    /// element named `name`.
    pub open spec fn int_child(self, name: Seq<char>) -> Option<i32> {
        match self.first(name) {
            Some(c) => parse_i32(trim(string_value(c))),
            None => None,
        }
    }
}

/// The views of a prefix of elements are the prefix of their views.
pub proof fn lemma_elements_view_take(v: Seq<Element>, i: int)
    requires
        0 <= i < v.len(),
    ensures
        elements_view(v.take(i + 1)) == elements_view(v.take(i)).push(element_view(v[i])),
{
    assert(v.take(i + 1) == v.take(i).push(v[i]));
    lemma_elements_view_push(v.take(i), v[i]);
}

/// The views of a sequence of element references.
pub open spec fn refs_view(v: Seq<&Element>) -> Seq<Node> {
    Seq::new(v.len(), |i: int| v[i]@)
}

impl Element {
    /// The first child element named `name`.
    pub fn first(&self, name: &str) -> (r: Option<&Element>)
        ensures
            match r {
                Some(e) => self@.first(name@) == Some(e@),
                None => self@.first(name@) is None,
            },
    {
        let n = self.children.len();
        let ghost cs = self@.children;
        proof {
            lemma_elements_view_len(self.children@);
        }
        let target = owned(name);
        let mut i: usize = 0;
        assert(cs.subrange(0, n as int) == cs);
        while i < n
            invariant
                n == self.children@.len() == cs.len(),
                cs == elements_view(self.children@),
                i <= n,
                first_named(cs, name@) == first_named(cs.subrange(i as int, n as int), name@),
                target@ == name@,
            decreases n - i,
        {
            proof {
                lemma_elements_view_index(self.children@, i as int);
            }
            let c = &self.children[i];
            if c.name == target {
                return Some(c);
            }
            assert(cs.subrange(i as int, n as int).drop_first() == cs.subrange(i + 1, n as int));
            i = i + 1;
        }
        None
    }

    /// The child elements named `name`, in document order.
    pub fn elements(&self, name: &str) -> (r: Vec<&Element>)
        ensures
            refs_view(r@) == self@.elements(name@),
    {
        let n = self.children.len();
        let ghost cs = self@.children;
        proof {
            lemma_elements_view_len(self.children@);
        }
        let target = owned(name);
        let mut out: Vec<&Element> = Vec::new();
        let mut i: usize = 0;
        while i < n
            invariant
                n == self.children@.len() == cs.len(),
                cs == elements_view(self.children@),
                i <= n,
                refs_view(out@) == all_named(cs.take(i as int), name@),
                target@ == name@,
            decreases n - i,
        {
            proof {
                lemma_elements_view_index(self.children@, i as int);
            }
            let c = &self.children[i];
            assert(cs.take(i + 1).drop_last() == cs.take(i as int));
            if c.name == target {
                out.push(c);
                assert(refs_view(out@) == refs_view(out@.drop_last()).push(c@));
            }
            i = i + 1;
        }
        assert(cs.take(n as int) == cs);
        out
    }

    /// The value of the attribute `key`.
    pub fn attribute(&self, key: &str) -> (r: Option<&String>)
        ensures
            match r {
                Some(v) => self@.attribute(key@) == Some(v@),
                None => self@.attribute(key@) is None,
            },
    {
        let n = self.attributes.len();
        let ghost attrs = self@.attributes;
        let target = owned(key);
        let mut i: usize = 0;
        assert(attrs.subrange(0, n as int) == attrs);
        while i < n
            invariant
                n == self.attributes@.len() == attrs.len(),
                attrs == pairs_view(self.attributes@),
                i <= n,
                first_value(attrs, key@) == first_value(attrs.subrange(i as int, n as int), key@),
                target@ == key@,
            decreases n - i,
        {
            let (k, v) = &self.attributes[i];
            if *k == target {
                return Some(v);
            }
            assert(attrs.subrange(i as int, n as int).drop_first() == attrs.subrange(i + 1, n as int));
            i = i + 1;
        }
        None
    }

    /// The character data of this element and its descendants.
    pub fn string_value(&self) -> (s: String)
        ensures
            s@ == string_value(self@),
        decreases self,
    {
        let mut out = self.text.clone();
        let n = self.children.len();
        let ghost kids = self.children@;
        proof {
            lemma_elements_view_len(kids);
        }
        let mut i: usize = 0;
        while i < n
            invariant
                n == kids.len(),
                kids == self.children@,
                i <= n,
                out@ == self.text@ + string_values(elements_view(kids.take(i as int))),
            decreases n - i,
        {
            proof {
                lemma_elements_view_take(kids, i as int);
                assert(decreases_to!(self => self.children));
                assert(decreases_to!(self.children => self.children@));
            }
            let c = &self.children[i];
            let part = c.string_value();
            let ghost before = out@;
            out.append(part.as_str());
            proof {
                let e = elements_view(kids.take(i + 1));
                assert(e.drop_last() == elements_view(kids.take(i as int)));
                assert(out@ == before + part@);
            }
            i = i + 1;
        }
        assert(kids.take(n as int) == kids);
        out
    }

    /// The integer written, between optional whitespace, in the first
    /// child element named `name`.
    pub fn int_child(&self, name: &str) -> (r: Option<i32>)
        ensures
            r == self@.int_child(name@),
    {
        match self.first(name) {
            Some(e) => {
                let s = e.string_value();
                parse_trimmed_i32(&s)
            },
            None => None,
        }
    }
}

/// A start tag: the element's name (`.0`) and its attributes in document
/// order (`.1`).
#[derive(Debug)]
pub struct XmlTag(pub String, pub Vec<(String, String)>);

/// The mathematical value of a start tag.
pub struct TagView {
    pub name: Seq<char>,
    pub attributes: Seq<(Seq<char>, Seq<char>)>,
}

impl View for XmlTag {
    type V = TagView;

    open spec fn view(&self) -> TagView {
        TagView { name: self.0@, attributes: pairs_view(self.1@) }
    }
}

/// One pull event of the XML reader, as the tree builder reads it.
#[derive(Debug)]
pub enum XmlEvent {
    /// `<tag attr="value">`
    Start(XmlTag),
    /// `<tag attr="value"/>`
    Empty(XmlTag),
    /// `</tag>`
    End,
    /// Character data; `None` where it could not be unescaped.
    Text(Option<String>),
    /// End of the document.
    Eof,
    /// The document is not well-formed XML.
    Error,
    /// Anything else (declarations, comments, CDATA, ...), which the tree ignores.
    Other,
}

/// The mathematical value of an [`XmlEvent`].
pub enum EventKindView {
    Start(TagView),
    Empty(TagView),
    End,
    Text(Option<Seq<char>>),
    Eof,
    Error,
    Other,
}

impl View for XmlEvent {
    type V = EventKindView;

    open spec fn view(&self) -> EventKindView {
        match self {
            XmlEvent::Start(t) => EventKindView::Start(t@),
            XmlEvent::Empty(t) => EventKindView::Empty(t@),
            XmlEvent::End => EventKindView::End,
            XmlEvent::Text(Some(s)) => EventKindView::Text(Some(s@)),
            XmlEvent::Text(None) => EventKindView::Text(None),
            XmlEvent::Eof => EventKindView::Eof,
            XmlEvent::Error => EventKindView::Error,
            XmlEvent::Other => EventKindView::Other,
        }
    }
}

/// An element with no content yet, opened by `tag`.
pub open spec fn leaf(tag: TagView) -> Node {
    Node { name: tag.name, attributes: tag.attributes, children: Seq::empty(), text: Seq::empty() }
}

/// The state of the tree builder: the open elements, outermost first, and
/// the finished root, if one was closed or written as an empty tag.
pub struct BuildState {
    pub stack: Seq<Node>,
    pub root: Option<Node>,
}

/// What one event does to the builder: go on with a new state, or finish
/// with the document's root (`None`: no document).
pub enum BuildStep {
    Continue(BuildState),
    Finished(Option<Node>),
}

/// `stack` with `child` appended to the children of its innermost element.
pub open spec fn add_child(stack: Seq<Node>, child: Node) -> Seq<Node>
    recommends
        stack.len() > 0,
{
    let top = stack.last();
    stack.update(stack.len() - 1, Node { children: top.children.push(child), ..top })
}

/// `stack` with `s` appended to the character data of its innermost element.
pub open spec fn add_text(stack: Seq<Node>, s: Seq<char>) -> Seq<Node>
    recommends
        stack.len() > 0,
{
    let top = stack.last();
    stack.update(stack.len() - 1, Node { text: top.text + s, ..top })
}

/// One event's effect on the tree builder.
pub open spec fn build_step(st: BuildState, ev: EventKindView) -> BuildStep {
    match ev {
        EventKindView::Start(tag) => BuildStep::Continue(
            BuildState { stack: st.stack.push(leaf(tag)), root: st.root },
        ),
        EventKindView::Empty(tag) => if st.stack.len() > 0 {
            BuildStep::Continue(BuildState { stack: add_child(st.stack, leaf(tag)), root: st.root })
        } else {
            BuildStep::Continue(BuildState { stack: st.stack, root: Some(leaf(tag)) })
        },
        EventKindView::End => if st.stack.len() == 0 {
            BuildStep::Finished(None)
        } else if st.stack.len() == 1 {
            BuildStep::Finished(Some(st.stack.last()))
        } else {
            BuildStep::Continue(
                BuildState {
                    stack: add_child(st.stack.drop_last(), st.stack.last()),
                    root: st.root,
                },
            )
        },
        EventKindView::Text(Some(s)) => if st.stack.len() > 0 {
            BuildStep::Continue(BuildState { stack: add_text(st.stack, s), root: st.root })
        } else {
            BuildStep::Continue(st)
        },
        EventKindView::Text(None) => BuildStep::Continue(st),
        EventKindView::Eof => BuildStep::Finished(st.root),
        EventKindView::Error => BuildStep::Finished(None),
        EventKindView::Other => BuildStep::Continue(st),
    }
}

/// The document that the rest of an event stream builds from state `st`:
/// the root once the outermost element closes or the stream ends, `None` on
/// an unmatched end tag or an error.
pub open spec fn build_from(st: BuildState, events: Seq<EventKindView>) -> Option<Node>
    decreases events.len(),
{
    if events.len() == 0 {
        st.root
    } else {
        match build_step(st, events[0]) {
            BuildStep::Continue(next) => build_from(next, events.drop_first()),
            BuildStep::Finished(r) => r,
        }
    }
}

/// The builder's state before the first event.
pub open spec fn initial_build_state() -> BuildState {
    BuildState { stack: Seq::empty(), root: None }
}

/// The document tree an event stream describes.
pub open spec fn document_tree(events: Seq<EventKindView>) -> Option<Node> {
    build_from(initial_build_state(), events)
}

/// The view of an optional element.
pub open spec fn opt_element_view(e: Option<Element>) -> Option<Node> {
    match e {
        Some(x) => Some(x@),
        None => None,
    }
}

/// Builds the element tree from pull events, one event at a time.
pub struct TreeBuilder {
    stack: Vec<Element>,
    root: Option<Element>,
}

impl View for TreeBuilder {
    type V = BuildState;

    closed spec fn view(&self) -> BuildState {
        BuildState { stack: elements_view(self.stack@), root: opt_element_view(self.root) }
    }
}

/// The element that a start tag opens.
pub(crate) fn element_of(tag: XmlTag) -> (e: Element)
    ensures
        e@ == leaf(tag@),
{
    let e = Element { name: tag.0, attributes: tag.1, children: Vec::new(), text: String::new() };
    assert(e.children@ == Seq::<Element>::empty());
    e
}

impl TreeBuilder {
    /// A builder that has seen no event.
    pub fn new() -> (b: TreeBuilder)
        ensures
            b@ == initial_build_state(),
    {
        let b = TreeBuilder { stack: Vec::new(), root: None };
        assert(b.stack@ == Seq::<Element>::empty());
        b
    }

    /// The root finished so far, taken out of the builder.
    pub fn into_root(self) -> (r: Option<Element>)
        ensures
            opt_element_view(r) == self@.root,
    {
        self.root
    }

    /// Appends `child` to the children of the innermost open element.
    fn push_child(&mut self, child: Element)
        requires
            old(self).stack@.len() > 0,
        ensures
            final(self)@ == (BuildState {
                stack: add_child(old(self)@.stack, child@),
                root: old(self)@.root,
            }),
    {
        let ghost old_stack = self.stack@;
        let mut top = self.stack.pop().unwrap();
        proof {
            lemma_elements_view_push(self.stack@, top);
            assert(old_stack == self.stack@.push(top));
        }
        let ghost old_children = top.children@;
        top.children.push(child);
        proof {
            lemma_elements_view_push(old_children, child);
            lemma_elements_view_push(self.stack@, top);
        }
        self.stack.push(top);
        proof {
            lemma_elements_view_len(old_stack);
            lemma_elements_view_len(self.stack@);
            assert(elements_view(self.stack@) =~= add_child(elements_view(old_stack), child@));
        }
    }

    /// Appends `s` to the character data of the innermost open element.
    fn push_text(&mut self, s: String)
        requires
            old(self).stack@.len() > 0,
        ensures
            final(self)@ == (BuildState {
                stack: add_text(old(self)@.stack, s@),
                root: old(self)@.root,
            }),
    {
        let ghost old_stack = self.stack@;
        let mut top = self.stack.pop().unwrap();
        proof {
            lemma_elements_view_push(self.stack@, top);
            assert(old_stack == self.stack@.push(top));
        }
        top.text.append(s.as_str());
        proof {
            lemma_elements_view_push(self.stack@, top);
        }
        self.stack.push(top);
        proof {
            lemma_elements_view_len(old_stack);
            lemma_elements_view_len(self.stack@);
            assert(elements_view(self.stack@) =~= add_text(elements_view(old_stack), s@));
        }
    }

    /// Feeds one event. Returns `None` to go on, or `Some(root)` once the
    /// document is finished (`Some(None)`: there is no document).
    pub fn feed(&mut self, ev: XmlEvent) -> (done: Option<Option<Element>>)
        ensures
            match build_step(old(self)@, ev@) {
                BuildStep::Continue(next) => done is None && final(self)@ == next,
                BuildStep::Finished(r) => done matches Some(d) && opt_element_view(d) == r,
            },
    {
        match ev {
            XmlEvent::Start(tag) => {
                let e = element_of(tag);
                proof {
                    lemma_elements_view_push(self.stack@, e);
                }
                self.stack.push(e);
                None
            },
            XmlEvent::Empty(tag) => {
                let e = element_of(tag);
                if self.stack.len() > 0 {
                    self.push_child(e);
                } else {
                    self.root = Some(e);
                }
                None
            },
            XmlEvent::End => {
                proof {
                    lemma_elements_view_len(self.stack@);
                }
                let ghost old_stack = self.stack@;
                match self.stack.pop() {
                    None => Some(None),
                    Some(e) => {
                        proof {
                            lemma_elements_view_push(self.stack@, e);
                            assert(old_stack == self.stack@.push(e));
                            lemma_elements_view_len(self.stack@);
                            assert(elements_view(old_stack).drop_last() =~= elements_view(self.stack@));
                            assert(elements_view(old_stack).last() == e@);
                        }
                        if self.stack.len() > 0 {
                            self.push_child(e);
                            None
                        } else {
                            Some(Some(e))
                        }
                    },
                }
            },
            XmlEvent::Text(Some(s)) => {
                proof {
                    lemma_elements_view_len(self.stack@);
                }
                if self.stack.len() > 0 {
                    self.push_text(s);
                }
                None
            },
            XmlEvent::Text(None) => None,
            XmlEvent::Eof => {
                let mut root = None;
                std::mem::swap(&mut root, &mut self.root);
                Some(root)
            },
            XmlEvent::Error => Some(None),
            XmlEvent::Other => None,
        }
    }
}

} // verus!
