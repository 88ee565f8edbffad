//! Mathematical views of template nodes.

use vstd::prelude::*;
use crate::parser::ast::{
    Attribute, AttributeValue, BindingDecl, EventBinding, EventModifier, TemplateNode,
};
use crate::parser::model::opt_view;

verus! {

pub enum AttrValueModel {
    Static(Seq<char>),
    Dynamic(Seq<char>),
    NoValue,
}

pub struct AttrModel {
    pub name: Seq<char>,
    pub value: AttrValueModel,
}

pub struct EventModel {
    pub event: Seq<char>,
    pub handler: Seq<char>,
    pub modifiers: Seq<EventModifier>,
}

/// A template node with its texts as character sequences.
#[verifier::ext_equal]
pub enum TNode {
    Element {
        tag: Seq<char>,
        attributes: Seq<AttrModel>,
        events: Seq<EventModel>,
        bindings: Seq<(Seq<char>, Seq<char>)>,
        children: Seq<TNode>,
        self_closing: bool,
    },
    Text(Seq<char>),
    Expression(Seq<char>),
    UnsafeHtml(Seq<char>),
    If {
        condition: Seq<char>,
        then_branch: Seq<TNode>,
        else_ifs: Seq<(Seq<char>, Seq<TNode>)>,
        else_branch: Option<Seq<TNode>>,
    },
    Each { iterable: Seq<char>, item: Seq<char>, index: Option<Seq<char>>, children: Seq<TNode> },
    Match { expr: Seq<char>, arms: Seq<(Seq<char>, Seq<TNode>)> },
    Can { permission: Seq<char>, children: Seq<TNode> },
    Slot { name: Option<Seq<char>>, fallback: Seq<TNode> },
    Component {
        name: Seq<char>,
        props: Seq<AttrModel>,
        events: Seq<EventModel>,
        bindings: Seq<(Seq<char>, Seq<char>)>,
        children: Seq<TNode>,
        is_island: bool,
    },
    ErrorBoundary { children: Seq<TNode> },
}

impl View for Attribute {
    type V = AttrModel;

    open spec fn view(&self) -> AttrModel {
        AttrModel {
            name: self.name@,
            value: match self.value {
                AttributeValue::Static(s) => AttrValueModel::Static(s@),
                AttributeValue::Dynamic(s) => AttrValueModel::Dynamic(s@),
                AttributeValue::NoValue => AttrValueModel::NoValue,
            },
        }
    }
}

impl View for EventBinding {
    type V = EventModel;

    open spec fn view(&self) -> EventModel {
        EventModel { event: self.event@, handler: self.handler@, modifiers: self.modifiers@ }
    }
}

impl View for BindingDecl {
    type V = (Seq<char>, Seq<char>);

    open spec fn view(&self) -> (Seq<char>, Seq<char>) {
        (self.kind@, self.target@)
    }
}

pub open spec fn attrs_view(v: Seq<Attribute>) -> Seq<AttrModel> {
    v.map_values(|a: Attribute| a@)
}

pub open spec fn events_view(v: Seq<EventBinding>) -> Seq<EventModel> {
    v.map_values(|a: EventBinding| a@)
}

pub open spec fn bindings_view(v: Seq<BindingDecl>) -> Seq<(Seq<char>, Seq<char>)> {
    v.map_values(|a: BindingDecl| a@)
}

/// The view of a node.
pub open spec fn tnode(n: TemplateNode) -> TNode
    decreases n, 1int,
{
    match n {
        TemplateNode::Element(e) => TNode::Element {
            tag: e.tag@,
            attributes: attrs_view(e.attributes@),
            events: events_view(e.events@),
            bindings: bindings_view(e.bindings@),
            children: tnodes(e.children@),
            self_closing: e.self_closing,
        },
        TemplateNode::Text(t) => TNode::Text(t@),
        TemplateNode::Expression(x) => TNode::Expression(x.expr@),
        TemplateNode::UnsafeHtml(t) => TNode::UnsafeHtml(t@),
        TemplateNode::If(i) => TNode::If {
            condition: i.condition@,
            then_branch: tnodes(i.then_branch@),
            else_ifs: tbranches(i.else_if_branches@),
            else_branch: match i.else_branch {
                Some(b) => Some(tnodes(b@)),
                None => None,
            },
        },
        TemplateNode::Each(e) => TNode::Each {
            iterable: e.iterable@,
            item: e.item@,
            index: opt_view(e.index),
            children: tnodes(e.children@),
        },
        TemplateNode::Match(m) => TNode::Match { expr: m.expr@, arms: tbranches(m.arms@) },
        TemplateNode::Can(c) => TNode::Can { permission: c.permission@, children: tnodes(c.children@) },
        TemplateNode::Slot(s) => TNode::Slot { name: opt_view(s.name), fallback: tnodes(s.fallback@) },
        TemplateNode::Component(c) => TNode::Component {
            name: c.name@,
            props: attrs_view(c.props@),
            events: events_view(c.events@),
            bindings: bindings_view(c.bindings@),
            children: tnodes(c.children@),
            is_island: c.is_island,
        },
        TemplateNode::ErrorBoundary(b) => TNode::ErrorBoundary { children: tnodes(b.children@) },
    }
}

/// The views of a sequence of nodes.
pub open spec fn tnodes(v: Seq<TemplateNode>) -> Seq<TNode>
    decreases v, 0int,
{
    if v.len() == 0 {
        seq![]
    } else {
        tnodes(v.drop_last()).push(tnode(v.last()))
    }
}

/// The views of `(text, nodes)` branches.
pub open spec fn tbranches(v: Seq<(String, Vec<TemplateNode>)>) -> Seq<(Seq<char>, Seq<TNode>)>
    decreases v, 0int,
{
    if v.len() == 0 {
        seq![]
    } else {
        tbranches(v.drop_last()).push((v.last().0@, tnodes(v.last().1@)))
    }
}

} // verus!
