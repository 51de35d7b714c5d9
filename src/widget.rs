use vstd::prelude::*;
use crate::model::{
    lemma_model_round_trip, model_fits, model_tokens, read_started_spec, tv, Model, ModelView,
};
use crate::reader::{after_next, lemma_cons, lemma_skip_end, next_token, skip_rest, TokenReader};
use crate::value::{Error, Tag, Token, TokenView, Value, ValueView};
use crate::writer::Writer;

verus! {

/// Coordinates and colours hold IEEE-754 bit patterns.
pub type Vec2 = (u64, u64);

pub type Vec3 = (u64, u64, u64);

pub type Vec4 = (u64, u64, u64, u64);

pub type Box2 = ((u64, u64), (u64, u64));

pub type Binding = i32;

pub const WIDGET: Tag = 0x57444754;

pub const GROUP: Tag = 0x47525550;

pub const GRID: Tag = 0x47524944;

pub const MODEL: Tag = 0x4d4f444c;

pub const TEXT: Tag = 0x54455854;

pub const DOWN: Tag = 0x444f574e;

pub const UP: Tag = 0x55505f5f;

pub const MOTION: Tag = 0x4d4f544e;

pub const KEY: Tag = 0x4b45595f;

pub const KEYBOARD_FOCUS_LOST: Tag = 0x4b4c5354;

#[derive(Clone, Copy, Debug, PartialEq, Eq, Structural)]
pub enum EventType {
    Down,
    Up,
    Motion,
    Key,
    Text,
    KeyboardFocusLost,
}

/// A user event sent back to the controller.
#[derive(Clone, Copy, Debug, PartialEq)]
pub enum Event {
    Down,
    Up,
    Motion(i32, i32),
    Key(i32),
    Text(char),
    KeyboardFocusLost,
}

#[derive(Debug)]
pub enum Element {
    Widget(Widget),
    Group(Group),
    Grid(Grid),
    Model(ModelElement),
    Text(Text),
}

#[derive(Debug)]
pub struct Widget {
    pub location: Vec2,
    pub size: Vec2,
    pub fill_colour: Vec4,
    pub border_colour: Vec3,
    pub border_width: i32,
    pub bindings: Vec<(EventType, Binding)>,
    pub children: Vec<Element>,
}

#[derive(Debug)]
pub struct Group {
    pub location: Vec2,
    pub children: Vec<Element>,
}

#[derive(Clone, Copy, Debug, PartialEq)]
pub struct Grid {
    pub bounds: Box2,
    pub size: Vec2,
    pub offset: Vec2,
    pub colour: Vec3,
}

#[derive(Debug)]
pub struct ModelElement {
    pub location: Vec2,
    pub scale: u64,
    pub model: Model,
}

#[derive(Debug)]
pub struct Text {
    pub location: Vec2,
    pub size: u64,
    pub colour: Vec3,
    pub value: String,
}

// ---------------------------------------------------------------------------
// The mathematical model of a scene tree.

pub struct WidgetView {
    pub location: Vec2,
    pub size: Vec2,
    pub fill_colour: Vec4,
    pub border_colour: Vec3,
    pub border_width: i32,
    pub bindings: Seq<(EventType, Binding)>,
    pub children: Seq<ElementView>,
}

pub struct GroupView {
    pub location: Vec2,
    pub children: Seq<ElementView>,
}

pub struct ModelElementView {
    pub location: Vec2,
    pub scale: u64,
    pub model: ModelView,
}

pub struct TextView {
    pub location: Vec2,
    pub size: u64,
    pub colour: Vec3,
    pub value: Seq<char>,
}

pub enum ElementView {
    Widget(WidgetView),
    Group(GroupView),
    Grid(Grid),
    Model(ModelElementView),
    Text(TextView),
}

pub open spec fn element_view(e: Element) -> ElementView
    decreases e,
{
    match e {
        Element::Widget(w) => ElementView::Widget(
            WidgetView {
                location: w.location,
                size: w.size,
                fill_colour: w.fill_colour,
                border_colour: w.border_colour,
                border_width: w.border_width,
                bindings: w.bindings@,
                children: elements_view(w.children@),
            },
        ),
        Element::Group(g) => ElementView::Group(
            GroupView { location: g.location, children: elements_view(g.children@) },
        ),
        Element::Grid(g) => ElementView::Grid(g),
        Element::Model(m) => ElementView::Model(m@),
        Element::Text(t) => ElementView::Text(t@),
    }
}

pub open spec fn elements_view(cs: Seq<Element>) -> Seq<ElementView>
    decreases cs,
{
    Seq::new(
        cs.len(),
        |i: int|
            if 0 <= i < cs.len() {
                element_view(cs[i])
            } else {
                ElementView::Grid(default_grid())
            },
    )
}

impl View for Widget {
    type V = WidgetView;

    open spec fn view(&self) -> WidgetView {
        WidgetView {
            location: self.location,
            size: self.size,
            fill_colour: self.fill_colour,
            border_colour: self.border_colour,
            border_width: self.border_width,
            bindings: self.bindings@,
            children: elements_view(self.children@),
        }
    }
}

impl View for Group {
    type V = GroupView;

    open spec fn view(&self) -> GroupView {
        GroupView { location: self.location, children: elements_view(self.children@) }
    }
}

impl View for ModelElement {
    type V = ModelElementView;

    open spec fn view(&self) -> ModelElementView {
        ModelElementView { location: self.location, scale: self.scale, model: self.model@ }
    }
}

impl View for Text {
    type V = TextView;

    open spec fn view(&self) -> TextView {
        TextView { location: self.location, size: self.size, colour: self.colour, value: self.value@ }
    }
}

pub open spec fn default_widget() -> WidgetView {
    WidgetView {
        location: (0, 0),
        size: (0, 0),
        fill_colour: (0, 0, 0, 0),
        border_colour: (0, 0, 0),
        border_width: 0,
        bindings: seq![],
        children: seq![],
    }
}

pub open spec fn default_group() -> GroupView {
    GroupView { location: (0, 0), children: seq![] }
}

pub open spec fn default_grid() -> Grid {
    Grid { bounds: ((0, 0), (0, 0)), size: (0, 0), offset: (0, 0), colour: (0, 0, 0) }
}

pub open spec fn default_model_element() -> ModelElementView {
    ModelElementView { location: (0, 0), scale: 0, model: ModelView { paths: seq![] } }
}

pub open spec fn default_text() -> TextView {
    TextView { location: (0, 0), size: 0, colour: (0, 0, 0), value: seq![] }
}

// ---------------------------------------------------------------------------
// The written form of a tree.

pub open spec fn event_tag(e: EventType) -> Tag {
    match e {
        EventType::Down => DOWN,
        EventType::Up => UP,
        EventType::Motion => MOTION,
        EventType::Key => KEY,
        EventType::Text => TEXT,
        EventType::KeyboardFocusLost => KEYBOARD_FOCUS_LOST,
    }
}

pub open spec fn event_of(t: Tag) -> Option<EventType> {
    if t == DOWN {
        Some(EventType::Down)
    } else if t == UP {
        Some(EventType::Up)
    } else if t == MOTION {
        Some(EventType::Motion)
    } else if t == KEY {
        Some(EventType::Key)
    } else if t == TEXT {
        Some(EventType::Text)
    } else if t == KEYBOARD_FOCUS_LOST {
        Some(EventType::KeyboardFocusLost)
    } else {
        None
    }
}

pub open spec fn bindings_tokens(bs: Seq<(EventType, Binding)>) -> Seq<TokenView<u64>>
    decreases bs.len(),
{
    if bs.len() == 0 {
        seq![]
    } else {
        bindings_tokens(bs.drop_last()) + seq![
            tv(ValueView::Tag(event_tag(bs.last().0))),
            tv(ValueView::Int(bs.last().1)),
        ]
    }
}

/// The border group's content: empty unless the width is positive.
pub open spec fn border_tokens(w: WidgetView) -> Seq<TokenView<u64>> {
    if w.border_width > 0 {
        seq![tv(ValueView::Int(w.border_width)), tv(ValueView::Vec3(w.border_colour))]
    } else {
        seq![]
    }
}

pub open spec fn element_tokens(e: ElementView) -> Seq<TokenView<u64>>
    decreases e,
{
    match e {
        ElementView::Widget(w) => seq![
            TokenView::Start,
            tv(ValueView::Tag(WIDGET)),
            TokenView::Start,
            tv(ValueView::Vec2(w.location)),
            tv(ValueView::Vec2(w.size)),
            tv(ValueView::Vec4(w.fill_colour)),
            TokenView::Start,
        ] + border_tokens(w) + seq![TokenView::End, TokenView::End, TokenView::Start]
            + bindings_tokens(w.bindings) + seq![TokenView::End, TokenView::Start]
            + children_tokens(w.children) + seq![TokenView::End, TokenView::End],
        ElementView::Group(g) => seq![
            TokenView::Start,
            tv(ValueView::Tag(GROUP)),
            tv(ValueView::Vec2(g.location)),
            TokenView::Start,
        ] + children_tokens(g.children) + seq![TokenView::End, TokenView::End],
        ElementView::Grid(g) => seq![
            TokenView::Start,
            tv(ValueView::Tag(GRID)),
            tv(ValueView::Box2(g.bounds)),
            tv(ValueView::Vec2(g.size)),
            tv(ValueView::Vec2(g.offset)),
            tv(ValueView::Vec3(g.colour)),
            TokenView::End,
        ],
        ElementView::Model(m) => seq![
            TokenView::Start,
            tv(ValueView::Tag(MODEL)),
            tv(ValueView::Vec2(m.location)),
            tv(ValueView::Double(m.scale)),
        ] + model_tokens(m.model) + seq![TokenView::End],
        ElementView::Text(t) => seq![
            TokenView::Start,
            tv(ValueView::Tag(TEXT)),
            tv(ValueView::Vec2(t.location)),
            tv(ValueView::Double(t.size)),
            tv(ValueView::Vec3(t.colour)),
            tv(ValueView::String(t.value)),
            TokenView::End,
        ],
    }
}

pub open spec fn children_tokens(cs: Seq<ElementView>) -> Seq<TokenView<u64>>
    decreases cs,
{
    if cs.len() == 0 {
        seq![]
    } else {
        children_tokens(cs.subrange(0, cs.len() - 1)) + element_tokens(cs[cs.len() - 1])
    }
}

// ---------------------------------------------------------------------------
// Writing.

proof fn lemma_children_tokens_push(cs: Seq<ElementView>, e: ElementView)
    ensures
        children_tokens(cs.push(e)) == children_tokens(cs) + element_tokens(e),
{
    assert(cs.push(e).subrange(0, cs.len() as int) =~= cs);
}

fn write_children<W: Writer>(children: &Vec<Element>, writer: &mut W)
    requires
        old(writer).inv(),
    ensures
        final(writer).inv(),
        final(writer).base() == old(writer).base(),
        final(writer).written() == old(writer).written() + children_tokens(
            elements_view(children@),
        ),
    decreases children, 0nat,
{
    let ghost w0 = writer.written();
    let mut i: usize = 0;
    while i < children.len()
        invariant
            writer.inv(),
            writer.base() == old(writer).base(),
            i <= children@.len(),
            writer.written() == w0 + children_tokens(elements_view(children@.take(i as int))),
        decreases children@.len() - i,
    {
        proof {
            assert(decreases_to!(children => children@[i as int]));
        }
        children[i].write(writer);
        proof {
            lemma_children_tokens_push(elements_view(children@.take(i as int)), element_view(children@[i as int]));
            assert(elements_view(children@.take(i + 1)) =~= elements_view(children@.take(i as int)).push(element_view(children@[i as int])));
        }
        i = i + 1;
    }
    assert(children@.take(i as int) =~= children@);
}

impl EventType {
    pub fn tag(self) -> (r: Tag)
        ensures
            r == event_tag(self),
    {
        match self {
            EventType::Down => DOWN,
            EventType::Up => UP,
            EventType::Motion => MOTION,
            EventType::Key => KEY,
            EventType::Text => TEXT,
            EventType::KeyboardFocusLost => KEYBOARD_FOCUS_LOST,
        }
    }

    pub fn write<W: Writer>(self, writer: &mut W)
        requires
            old(writer).inv(),
        ensures
            final(writer).inv(),
        final(writer).base() == old(writer).base(),
            final(writer).base() == old(writer).base(),
            final(writer).written() == old(writer).written().push(tv(ValueView::Tag(event_tag(self)))),
    {
        writer.write_value(&Value::Tag(self.tag()));
    }

    /// The event kind a tag names, if any.
    pub fn from_tag(tag: Tag) -> (r: Option<EventType>)
        ensures
            r == event_of(tag),
    {
        if tag == DOWN {
            Some(EventType::Down)
        } else if tag == UP {
            Some(EventType::Up)
        } else if tag == MOTION {
            Some(EventType::Motion)
        } else if tag == KEY {
            Some(EventType::Key)
        } else if tag == TEXT {
            Some(EventType::Text)
        } else if tag == KEYBOARD_FOCUS_LOST {
            Some(EventType::KeyboardFocusLost)
        } else {
            None
        }
    }
}

impl Element {
    pub fn write<W: Writer>(&self, writer: &mut W)
        requires
            old(writer).inv(),
        ensures
            final(writer).inv(),
        final(writer).base() == old(writer).base(),
            final(writer).base() == old(writer).base(),
            final(writer).written() == old(writer).written() + element_tokens(element_view(*self)),
        decreases self, 0nat,
    {
        match self {
            Element::Widget(w) => w.write(writer),
            Element::Group(g) => g.write(writer),
            Element::Grid(g) => g.write(writer),
            Element::Model(m) => m.write(writer),
            Element::Text(t) => t.write(writer),
        }
    }
}

impl Widget {
    pub fn write<W: Writer>(&self, writer: &mut W)
        requires
            old(writer).inv(),
        ensures
            final(writer).inv(),
        final(writer).base() == old(writer).base(),
            final(writer).base() == old(writer).base(),
            final(writer).written() == old(writer).written() + element_tokens(
                ElementView::Widget(self@),
            ),
        decreases self, 0nat,
    {
        let ghost w0 = writer.written();
        writer.write_start();
        writer.write_value(&Value::Tag(WIDGET));
        writer.write_start();
        writer.write_value(&Value::Vec2(self.location));
        writer.write_value(&Value::Vec2(self.size));
        writer.write_value(&Value::Vec4(self.fill_colour));
        writer.write_start();
        if self.border_width > 0 {
            writer.write_value(&Value::Int(self.border_width));
            writer.write_value(&Value::Vec3(self.border_colour));
        }
        writer.write_end();
        writer.write_end();
        writer.write_start();
        let ghost w1 = writer.written();
        let mut i: usize = 0;
        while i < self.bindings.len()
            invariant
                writer.inv(),
            writer.base() == old(writer).base(),
                writer.base() == old(writer).base(),
                i <= self.bindings@.len(),
                writer.written() == w1 + bindings_tokens(self.bindings@.take(i as int)),
            decreases self.bindings@.len() - i,
        {
            let (event, binding) = self.bindings[i];
            event.write(writer);
            writer.write_value(&Value::Int(binding));
            assert(self.bindings@.take(i + 1).drop_last() =~= self.bindings@.take(i as int));
            i = i + 1;
        }
        assert(self.bindings@.take(i as int) =~= self.bindings@);
        writer.write_end();
        writer.write_start();
        proof {
            assert(decreases_to!(self => self.children));
        }
        write_children(&self.children, writer);
        writer.write_end();
        writer.write_end();
        assert(writer.written() =~= w0 + element_tokens(ElementView::Widget(self@)));
    }
}

impl Group {
    pub fn write<W: Writer>(&self, writer: &mut W)
        requires
            old(writer).inv(),
        ensures
            final(writer).inv(),
        final(writer).base() == old(writer).base(),
            final(writer).base() == old(writer).base(),
            final(writer).written() == old(writer).written() + element_tokens(
                ElementView::Group(self@),
            ),
        decreases self, 0nat,
    {
        let ghost w0 = writer.written();
        writer.write_start();
        writer.write_value(&Value::Tag(GROUP));
        writer.write_value(&Value::Vec2(self.location));
        writer.write_start();
        proof {
            assert(decreases_to!(self => self.children));
        }
        write_children(&self.children, writer);
        writer.write_end();
        writer.write_end();
        assert(writer.written() =~= w0 + element_tokens(ElementView::Group(self@)));
    }
}

impl Grid {
    pub fn write<W: Writer>(&self, writer: &mut W)
        requires
            old(writer).inv(),
        ensures
            final(writer).inv(),
        final(writer).base() == old(writer).base(),
            final(writer).base() == old(writer).base(),
            final(writer).written() == old(writer).written() + element_tokens(
                ElementView::Grid(*self),
            ),
    {
        let ghost w0 = writer.written();
        writer.write_start();
        writer.write_value(&Value::Tag(GRID));
        writer.write_value(&Value::Box2(self.bounds));
        writer.write_value(&Value::Vec2(self.size));
        writer.write_value(&Value::Vec2(self.offset));
        writer.write_value(&Value::Vec3(self.colour));
        writer.write_end();
        assert(writer.written() =~= w0 + element_tokens(ElementView::Grid(*self)));
    }
}

impl ModelElement {
    pub fn write<W: Writer>(&self, writer: &mut W)
        requires
            old(writer).inv(),
        ensures
            final(writer).inv(),
        final(writer).base() == old(writer).base(),
            final(writer).base() == old(writer).base(),
            final(writer).written() == old(writer).written() + element_tokens(
                ElementView::Model(self@),
            ),
    {
        let ghost w0 = writer.written();
        writer.write_start();
        writer.write_value(&Value::Tag(MODEL));
        writer.write_value(&Value::Vec2(self.location));
        writer.write_value(&Value::Double(self.scale));
        self.model.write(writer);
        writer.write_end();
        assert(writer.written() =~= w0 + element_tokens(ElementView::Model(self@)));
    }
}

impl Text {
    pub fn write<W: Writer>(&self, writer: &mut W)
        requires
            old(writer).inv(),
        ensures
            final(writer).inv(),
        final(writer).base() == old(writer).base(),
            final(writer).base() == old(writer).base(),
            final(writer).written() == old(writer).written() + element_tokens(
                ElementView::Text(self@),
            ),
    {
        let ghost w0 = writer.written();
        writer.write_start();
        writer.write_value(&Value::Tag(TEXT));
        writer.write_value(&Value::Vec2(self.location));
        writer.write_value(&Value::Double(self.size));
        writer.write_value(&Value::Vec3(self.colour));
        writer.write_value(&Value::String(self.value.clone()));
        writer.write_end();
        assert(writer.written() =~= w0 + element_tokens(ElementView::Text(self@)));
    }
}

// ---------------------------------------------------------------------------
// Patching: what an update does, as a function from the node before and the
// tokens to the node after and the tokens left. At each slot an `End` leaves
// the rest of the node as it was.

pub open spec fn patch_grid(g: Grid, ts: Seq<TokenView<u64>>) -> Result<(Grid, Seq<TokenView<u64>>), Error> {
    match next_token(ts) {
        TokenView::Value(ValueView::Box2(b)) => {
            let g1 = Grid { bounds: b, ..g };
            let t1 = after_next(ts);
            match next_token(t1) {
                TokenView::Value(ValueView::Vec2(sz)) => {
                    let g2 = Grid { size: sz, ..g1 };
                    let t2 = after_next(t1);
                    match next_token(t2) {
                        TokenView::Value(ValueView::Vec2(o)) => {
                            let g3 = Grid { offset: o, ..g2 };
                            let t3 = after_next(t2);
                            match next_token(t3) {
                                TokenView::Value(ValueView::Vec3(c)) => match skip_rest(
                                    after_next(t3),
                                ) {
                                    Ok(r) => Ok((Grid { colour: c, ..g3 }, r)),
                                    Err(e) => Err(e),
                                },
                                TokenView::End => Ok((g3, after_next(t3))),
                                _ => Err(Error::UnexpectedToken),
                            }
                        },
                        TokenView::End => Ok((g2, after_next(t2))),
                        _ => Err(Error::UnexpectedToken),
                    }
                },
                TokenView::End => Ok((g1, after_next(t1))),
                _ => Err(Error::UnexpectedToken),
            }
        },
        TokenView::End => Ok((g, after_next(ts))),
        _ => Err(Error::UnexpectedToken),
    }
}

pub open spec fn patch_text(x: TextView, ts: Seq<TokenView<u64>>) -> Result<(TextView, Seq<TokenView<u64>>), Error> {
    match next_token(ts) {
        TokenView::Value(ValueView::Vec2(l)) => {
            let x1 = TextView { location: l, ..x };
            let t1 = after_next(ts);
            match next_token(t1) {
                TokenView::Value(ValueView::Double(sz)) => {
                    let x2 = TextView { size: sz, ..x1 };
                    let t2 = after_next(t1);
                    match next_token(t2) {
                        TokenView::Value(ValueView::Vec3(c)) => {
                            let x3 = TextView { colour: c, ..x2 };
                            let t3 = after_next(t2);
                            match next_token(t3) {
                                TokenView::Value(ValueView::String(v)) => match skip_rest(
                                    after_next(t3),
                                ) {
                                    Ok(r) => Ok((TextView { value: v, ..x3 }, r)),
                                    Err(e) => Err(e),
                                },
                                TokenView::End => Ok((x3, after_next(t3))),
                                _ => Err(Error::UnexpectedToken),
                            }
                        },
                        TokenView::End => Ok((x2, after_next(t2))),
                        _ => Err(Error::UnexpectedToken),
                    }
                },
                TokenView::End => Ok((x1, after_next(t1))),
                _ => Err(Error::UnexpectedToken),
            }
        },
        TokenView::End => Ok((x, after_next(ts))),
        _ => Err(Error::UnexpectedToken),
    }
}

/// The shape slot, when present, replaces the whole shape.
pub open spec fn patch_model_element(m: ModelElementView, ts: Seq<TokenView<u64>>) -> Result<(ModelElementView, Seq<TokenView<u64>>), Error> {
    match next_token(ts) {
        TokenView::Value(ValueView::Vec2(l)) => {
            let m1 = ModelElementView { location: l, ..m };
            let t1 = after_next(ts);
            match next_token(t1) {
                TokenView::Value(ValueView::Double(sc)) => {
                    let m2 = ModelElementView { scale: sc, ..m1 };
                    let t2 = after_next(t1);
                    match next_token(t2) {
                        TokenView::Start => match read_started_spec(after_next(t2)) {
                            Ok((model, r)) => match skip_rest(r) {
                                Ok(r2) => Ok((ModelElementView { model: model, ..m2 }, r2)),
                                Err(e) => Err(e),
                            },
                            Err(e) => Err(e),
                        },
                        TokenView::End => Ok((m2, after_next(t2))),
                        TokenView::EndOfFile => Ok((m2, after_next(t2))),
                        _ => Err(Error::UnexpectedToken),
                    }
                },
                TokenView::End => Ok((m1, after_next(t1))),
                _ => Err(Error::UnexpectedToken),
            }
        },
        TokenView::End => Ok((m, after_next(ts))),
        _ => Err(Error::UnexpectedToken),
    }
}

/// The border group: an empty one resets the width to 0.
pub open spec fn patch_border(w: WidgetView, ts: Seq<TokenView<u64>>) -> Result<(WidgetView, Seq<TokenView<u64>>), Error> {
    match next_token(ts) {
        TokenView::Value(ValueView::Int(bw)) => {
            let w1 = WidgetView { border_width: bw, ..w };
            let t1 = after_next(ts);
            match next_token(t1) {
                TokenView::Value(ValueView::Vec3(bc)) => match skip_rest(after_next(t1)) {
                    Ok(r) => Ok((WidgetView { border_colour: bc, ..w1 }, r)),
                    Err(e) => Err(e),
                },
                TokenView::End => Ok((w1, after_next(t1))),
                _ => Err(Error::UnexpectedToken),
            }
        },
        TokenView::End => Ok((WidgetView { border_width: 0, ..w }, after_next(ts))),
        _ => Err(Error::UnexpectedToken),
    }
}

pub open spec fn patch_attrs(w: WidgetView, ts: Seq<TokenView<u64>>) -> Result<(WidgetView, Seq<TokenView<u64>>), Error> {
    match next_token(ts) {
        TokenView::Value(ValueView::Vec2(l)) => {
            let w1 = WidgetView { location: l, ..w };
            let t1 = after_next(ts);
            match next_token(t1) {
                TokenView::Value(ValueView::Vec2(sz)) => {
                    let w2 = WidgetView { size: sz, ..w1 };
                    let t2 = after_next(t1);
                    match next_token(t2) {
                        TokenView::Value(ValueView::Vec4(f)) => {
                            let w3 = WidgetView { fill_colour: f, ..w2 };
                            let t3 = after_next(t2);
                            match next_token(t3) {
                                TokenView::Start => match patch_border(w3, after_next(t3)) {
                                    Ok((w4, r)) => match skip_rest(r) {
                                        Ok(r2) => Ok((w4, r2)),
                                        Err(e) => Err(e),
                                    },
                                    Err(e) => Err(e),
                                },
                                TokenView::End => Ok((w3, after_next(t3))),
                                TokenView::EndOfFile => Ok((w3, after_next(t3))),
                                _ => Err(Error::UnexpectedToken),
                            }
                        },
                        TokenView::End => Ok((w2, after_next(t2))),
                        _ => Err(Error::UnexpectedToken),
                    }
                },
                TokenView::End => Ok((w1, after_next(t1))),
                _ => Err(Error::UnexpectedToken),
            }
        },
        TokenView::End => Ok((w, after_next(ts))),
        _ => Err(Error::UnexpectedToken),
    }
}

/// `(event, binding)` pairs up to the end of the group, after `acc`.
pub open spec fn patch_bindings(acc: Seq<(EventType, Binding)>, ts: Seq<TokenView<u64>>) -> Result<(Seq<(EventType, Binding)>, Seq<TokenView<u64>>), Error>
    decreases ts.len(),
{
    match next_token(ts) {
        TokenView::Value(ValueView::Tag(t)) => match event_of(t) {
            Some(ev) => {
                let t1 = after_next(ts);
                match next_token(t1) {
                    TokenView::Value(ValueView::Int(b)) => patch_bindings(
                        acc.push((ev, b)),
                        after_next(t1),
                    ),
                    _ => Err(Error::UnexpectedToken),
                }
            },
            None => Err(Error::UnknownTag),
        },
        TokenView::End => Ok((acc, after_next(ts))),
        _ => Err(Error::UnexpectedToken),
    }
}

pub open spec fn patch_widget(w: WidgetView, ts: Seq<TokenView<u64>>) -> Result<(WidgetView, Seq<TokenView<u64>>), Error>
    decreases ts.len(), 2nat,
{
    match next_token(ts) {
        TokenView::Start => match patch_attrs(w, after_next(ts)) {
            Ok((w1, t1)) => match next_token(t1) {
                TokenView::Start => match patch_bindings(seq![], after_next(t1)) {
                    Ok((bs, t2)) => {
                        let w2 = WidgetView { bindings: bs, ..w1 };
                        match next_token(t2) {
                            TokenView::Start => {
                                let t3 = after_next(t2);
                                if t3.len() < ts.len() {
                                    match patch_children(w2.children, t3, 0) {
                                        Ok((cs, t4)) => match skip_rest(t4) {
                                            Ok(r) => Ok((WidgetView { children: cs, ..w2 }, r)),
                                            Err(e) => Err(e),
                                        },
                                        Err(e) => Err(e),
                                    }
                                } else {
                                    Err(Error::InvalidToken)
                                }
                            },
                            TokenView::End => Ok((w2, after_next(t2))),
                            TokenView::EndOfFile => Ok((w2, after_next(t2))),
                            _ => Err(Error::UnexpectedToken),
                        }
                    },
                    Err(e) => Err(e),
                },
                TokenView::End => Ok((w1, after_next(t1))),
                TokenView::EndOfFile => Ok((w1, after_next(t1))),
                _ => Err(Error::UnexpectedToken),
            },
            Err(e) => Err(e),
        },
        TokenView::End => Ok((w, after_next(ts))),
        TokenView::EndOfFile => Ok((w, after_next(ts))),
        _ => Err(Error::UnexpectedToken),
    }
}

pub open spec fn patch_group(g: GroupView, ts: Seq<TokenView<u64>>) -> Result<(GroupView, Seq<TokenView<u64>>), Error>
    decreases ts.len(), 2nat,
{
    match next_token(ts) {
        TokenView::Value(ValueView::Vec2(l)) => {
            let g1 = GroupView { location: l, ..g };
            let t1 = after_next(ts);
            match next_token(t1) {
                TokenView::Start => {
                    let t2 = after_next(t1);
                    match patch_children(g1.children, t2, 0) {
                        Ok((cs, t3)) => match skip_rest(t3) {
                            Ok(r) => Ok((GroupView { children: cs, ..g1 }, r)),
                            Err(e) => Err(e),
                        },
                        Err(e) => Err(e),
                    }
                },
                TokenView::End => Ok((g1, after_next(t1))),
                TokenView::EndOfFile => Ok((g1, after_next(t1))),
                _ => Err(Error::UnexpectedToken),
            }
        },
        TokenView::End => Ok((g, after_next(ts))),
        _ => Err(Error::UnexpectedToken),
    }
}

/// One incoming child of kind `tag`, patched into the existing child at its
/// position when that has the same kind, else into a new default node.
pub open spec fn patch_child(old: Option<ElementView>, tag: Tag, ts: Seq<TokenView<u64>>) -> Result<(ElementView, Seq<TokenView<u64>>), Error>
    decreases ts.len(), 3nat,
{
    if tag == WIDGET {
        let base = match old {
            Some(ElementView::Widget(w)) => w,
            _ => default_widget(),
        };
        match patch_widget(base, ts) {
            Ok((w, r)) => Ok((ElementView::Widget(w), r)),
            Err(e) => Err(e),
        }
    } else if tag == GROUP {
        let base = match old {
            Some(ElementView::Group(g)) => g,
            _ => default_group(),
        };
        match patch_group(base, ts) {
            Ok((g, r)) => Ok((ElementView::Group(g), r)),
            Err(e) => Err(e),
        }
    } else if tag == GRID {
        let base = match old {
            Some(ElementView::Grid(g)) => g,
            _ => default_grid(),
        };
        match patch_grid(base, ts) {
            Ok((g, r)) => Ok((ElementView::Grid(g), r)),
            Err(e) => Err(e),
        }
    } else if tag == MODEL {
        let base = match old {
            Some(ElementView::Model(m)) => m,
            _ => default_model_element(),
        };
        match patch_model_element(base, ts) {
            Ok((m, r)) => Ok((ElementView::Model(m), r)),
            Err(e) => Err(e),
        }
    } else if tag == TEXT {
        let base = match old {
            Some(ElementView::Text(x)) => x,
            _ => default_text(),
        };
        match patch_text(base, ts) {
            Ok((x, r)) => Ok((ElementView::Text(x), r)),
            Err(e) => Err(e),
        }
    } else {
        Err(Error::UnknownTag)
    }
}

/// Child groups patched positionally from index `i` on; when the children
/// group closes, the list is cut to the number of children received.
pub open spec fn patch_children(cs: Seq<ElementView>, ts: Seq<TokenView<u64>>, i: nat) -> Result<(Seq<ElementView>, Seq<TokenView<u64>>), Error>
    decreases ts.len(), 1nat,
{
    match next_token(ts) {
        TokenView::Start => {
            let t1 = after_next(ts);
            match next_token(t1) {
                TokenView::Value(ValueView::Tag(tag)) => {
                    let t2 = after_next(t1);
                    match patch_child(
                        if i < cs.len() {
                            Some(cs[i as int])
                        } else {
                            None
                        },
                        tag,
                        t2,
                    ) {
                        Ok((e, r)) => if r.len() < ts.len() {
                            patch_children(
                                if i < cs.len() {
                                    cs.update(i as int, e)
                                } else {
                                    cs.push(e)
                                },
                                r,
                                i + 1,
                            )
                        } else {
                            Err(Error::InvalidToken)
                        },
                        Err(e) => Err(e),
                    }
                },
                _ => Err(Error::UnexpectedToken),
            }
        },
        TokenView::End => Ok((
            if i < cs.len() {
                cs.take(i as int)
            } else {
                cs
            },
            after_next(ts),
        )),
        TokenView::EndOfFile => Ok((
            if i < cs.len() {
                cs.take(i as int)
            } else {
                cs
            },
            after_next(ts),
        )),
        _ => Err(Error::UnexpectedToken),
    }
}

// ---------------------------------------------------------------------------
// Default nodes.

impl Default for Widget {
    fn default() -> (r: Widget)
        ensures
            r@ == default_widget(),
    {
        let r = Widget {
            location: (0, 0),
            size: (0, 0),
            fill_colour: (0, 0, 0, 0),
            border_colour: (0, 0, 0),
            border_width: 0,
            bindings: Vec::new(),
            children: Vec::new(),
        };
        assert(r@.children =~= seq![]);
        assert(r@.bindings =~= seq![]);
        r
    }
}

impl Default for Group {
    fn default() -> (r: Group)
        ensures
            r@ == default_group(),
    {
        let r = Group { location: (0, 0), children: Vec::new() };
        assert(r@.children =~= seq![]);
        r
    }
}

impl Default for Grid {
    fn default() -> (r: Grid)
        ensures
            r == default_grid(),
    {
        Grid { bounds: ((0, 0), (0, 0)), size: (0, 0), offset: (0, 0), colour: (0, 0, 0) }
    }
}

impl Default for ModelElement {
    fn default() -> (r: ModelElement)
        ensures
            r@ == default_model_element(),
    {
        let r = ModelElement { location: (0, 0), scale: 0, model: Model { paths: Vec::new() } };
        assert(r@.model.paths =~= seq![]);
        r
    }
}

impl Default for Text {
    fn default() -> (r: Text)
        ensures
            r@ == default_text(),
    {
        let r = Text { location: (0, 0), size: 0, colour: (0, 0, 0), value: String::new() };
        r
    }
}

// ---------------------------------------------------------------------------
// Updating in place.

impl Grid {
    pub fn update(&mut self, reader: &mut TokenReader) -> (res: Result<(), Error>)
        ensures
            final(reader).rest().len() <= old(reader).rest().len(),
            match patch_grid(*old(self), old(reader).rest()) {
                Ok((g, r)) => res is Ok && *final(self) == g && final(reader).rest() == r,
                Err(e) => res == Err::<(), Error>(e),
            },
    {
        match reader.expect_box2_or_end() {
            Ok(Some(v)) => {
                self.bounds = v;
            },
            Ok(None) => return Ok(()),
            Err(e) => return Err(e),
        }
        match reader.expect_vec2_or_end() {
            Ok(Some(v)) => {
                self.size = v;
            },
            Ok(None) => return Ok(()),
            Err(e) => return Err(e),
        }
        match reader.expect_vec2_or_end() {
            Ok(Some(v)) => {
                self.offset = v;
            },
            Ok(None) => return Ok(()),
            Err(e) => return Err(e),
        }
        match reader.expect_vec3_or_end() {
            Ok(Some(v)) => {
                self.colour = v;
            },
            Ok(None) => return Ok(()),
            Err(e) => return Err(e),
        }
        reader.skip_to_end()
    }
}

impl Text {
    pub fn update(&mut self, reader: &mut TokenReader) -> (res: Result<(), Error>)
        ensures
            final(reader).rest().len() <= old(reader).rest().len(),
            match patch_text(old(self)@, old(reader).rest()) {
                Ok((x, r)) => res is Ok && final(self)@ == x && final(reader).rest() == r,
                Err(e) => res == Err::<(), Error>(e),
            },
    {
        match reader.expect_vec2_or_end() {
            Ok(Some(v)) => {
                self.location = v;
            },
            Ok(None) => return Ok(()),
            Err(e) => return Err(e),
        }
        match reader.expect_double_or_end() {
            Ok(Some(v)) => {
                self.size = v;
            },
            Ok(None) => return Ok(()),
            Err(e) => return Err(e),
        }
        match reader.expect_vec3_or_end() {
            Ok(Some(v)) => {
                self.colour = v;
            },
            Ok(None) => return Ok(()),
            Err(e) => return Err(e),
        }
        match reader.expect_string_or_end() {
            Ok(Some(v)) => {
                self.value = v;
            },
            Ok(None) => return Ok(()),
            Err(e) => return Err(e),
        }
        reader.skip_to_end()
    }
}

impl ModelElement {
    pub fn update(&mut self, reader: &mut TokenReader) -> (res: Result<(), Error>)
        ensures
            final(reader).rest().len() <= old(reader).rest().len(),
            match patch_model_element(old(self)@, old(reader).rest()) {
                Ok((m, r)) => res is Ok && final(self)@ == m && final(reader).rest() == r,
                Err(e) => res == Err::<(), Error>(e),
            },
    {
        match reader.expect_vec2_or_end() {
            Ok(Some(v)) => {
                self.location = v;
            },
            Ok(None) => return Ok(()),
            Err(e) => return Err(e),
        }
        match reader.expect_double_or_end() {
            Ok(Some(v)) => {
                self.scale = v;
            },
            Ok(None) => return Ok(()),
            Err(e) => return Err(e),
        }
        match reader.expect_start_or_end() {
            Ok(true) => {},
            Ok(false) => return Ok(()),
            Err(e) => return Err(e),
        }
        match Model::read_started(reader) {
            Ok(m) => {
                self.model = m;
            },
            Err(e) => return Err(e),
        }
        reader.skip_to_end()
    }
}

impl Widget {
    fn update_attrs(&mut self, reader: &mut TokenReader) -> (res: Result<(), Error>)
        ensures
            final(reader).rest().len() <= old(reader).rest().len(),
            match patch_attrs(old(self)@, old(reader).rest()) {
                Ok((w, r)) => res is Ok && final(self)@ == w && final(reader).rest() == r,
                Err(e) => res == Err::<(), Error>(e),
            },
    {
        match reader.expect_vec2_or_end() {
            Ok(Some(v)) => {
                self.location = v;
            },
            Ok(None) => return Ok(()),
            Err(e) => return Err(e),
        }
        match reader.expect_vec2_or_end() {
            Ok(Some(v)) => {
                self.size = v;
            },
            Ok(None) => return Ok(()),
            Err(e) => return Err(e),
        }
        match reader.expect_vec4_or_end() {
            Ok(Some(v)) => {
                self.fill_colour = v;
            },
            Ok(None) => return Ok(()),
            Err(e) => return Err(e),
        }
        match reader.expect_start_or_end() {
            Ok(true) => {},
            Ok(false) => return Ok(()),
            Err(e) => return Err(e),
        }
        match reader.expect_int_or_end() {
            Ok(Some(bw)) => {
                self.border_width = bw;
                match reader.expect_vec3_or_end() {
                    Ok(Some(bc)) => {
                        self.border_colour = bc;
                        match reader.skip_to_end() {
                            Ok(()) => {},
                            Err(e) => return Err(e),
                        }
                    },
                    Ok(None) => {},
                    Err(e) => return Err(e),
                }
            },
            Ok(None) => {
                self.border_width = 0;
            },
            Err(e) => return Err(e),
        }
        reader.skip_to_end()
    }

    fn update_bindings(&mut self, reader: &mut TokenReader) -> (res: Result<(), Error>)
        ensures
            final(reader).rest().len() <= old(reader).rest().len(),
            match patch_bindings(seq![], old(reader).rest()) {
                Ok((bs, r)) => res is Ok && final(self)@ == (WidgetView { bindings: bs, ..old(self)@ })
                    && final(reader).rest() == r,
                Err(e) => res == Err::<(), Error>(e),
            },
    {
        self.bindings.clear();
        assert(self.bindings@ =~= seq![]);
        loop
            invariant
                reader.rest().len() <= old(reader).rest().len(),
                self@ == (WidgetView { bindings: self.bindings@, ..old(self)@ }),
                patch_bindings(seq![], old(reader).rest()) == patch_bindings(
                    self.bindings@,
                    reader.rest(),
                ),
            decreases reader.rest().len(),
        {
            let tag = match reader.expect_tag_or_end() {
                Ok(Some(t)) => t,
                Ok(None) => return Ok(()),
                Err(e) => return Err(e),
            };
            let event = match EventType::from_tag(tag) {
                Some(ev) => ev,
                None => return Err(Error::UnknownTag),
            };
            let binding = match reader.expect_int() {
                Ok(b) => b,
                Err(e) => return Err(e),
            };
            self.bindings.push((event, binding));
        }
    }

    /// Patches this widget from a group whose start and kind tag have been read.
    pub fn update(&mut self, reader: &mut TokenReader) -> (res: Result<(), Error>)
        ensures
            final(reader).rest().len() <= old(reader).rest().len(),
            match patch_widget(old(self)@, old(reader).rest()) {
                Ok((w, r)) => res is Ok && final(self)@ == w && final(reader).rest() == r,
                Err(e) => res == Err::<(), Error>(e),
            },
        decreases old(reader).rest().len(), 2nat,
    {
        let ghost ts = reader.rest();
        match reader.expect_start_or_end() {
            Ok(true) => {},
            Ok(false) => return Ok(()),
            Err(e) => return Err(e),
        }
        match self.update_attrs(reader) {
            Ok(()) => {},
            Err(e) => return Err(e),
        }
        match reader.expect_start_or_end() {
            Ok(true) => {},
            Ok(false) => return Ok(()),
            Err(e) => return Err(e),
        }
        match self.update_bindings(reader) {
            Ok(()) => {},
            Err(e) => return Err(e),
        }
        match reader.expect_start_or_end() {
            Ok(true) => {},
            Ok(false) => return Ok(()),
            Err(e) => return Err(e),
        }
        assert(reader.rest().len() < ts.len());
        match update_children(&mut self.children, reader) {
            Ok(()) => {},
            Err(e) => return Err(e),
        }
        reader.skip_to_end()
    }
}

impl Group {
    pub fn update(&mut self, reader: &mut TokenReader) -> (res: Result<(), Error>)
        ensures
            final(reader).rest().len() <= old(reader).rest().len(),
            match patch_group(old(self)@, old(reader).rest()) {
                Ok((g, r)) => res is Ok && final(self)@ == g && final(reader).rest() == r,
                Err(e) => res == Err::<(), Error>(e),
            },
        decreases old(reader).rest().len(), 2nat,
    {
        match reader.expect_vec2_or_end() {
            Ok(Some(v)) => {
                self.location = v;
            },
            Ok(None) => return Ok(()),
            Err(e) => return Err(e),
        }
        match reader.expect_start_or_end() {
            Ok(true) => {},
            Ok(false) => return Ok(()),
            Err(e) => return Err(e),
        }
        match update_children(&mut self.children, reader) {
            Ok(()) => {},
            Err(e) => return Err(e),
        }
        reader.skip_to_end()
    }
}

fn update_widget_child(child: &mut Element, reader: &mut TokenReader) -> (res: Result<(), Error>)
    ensures
        final(reader).rest().len() <= old(reader).rest().len(),
        match patch_child(Some(element_view(*old(child))), WIDGET, old(reader).rest()) {
            Ok((e, r)) => res is Ok && element_view(*final(child)) == e && final(reader).rest() == r,
            Err(e) => res == Err::<(), Error>(e),
        },
    decreases old(reader).rest().len(), 3nat,
{
    match child {
        Element::Widget(w) => w.update(reader),
        _ => {
            let mut w = Widget::default();
            match w.update(reader) {
                Ok(()) => {
                    *child = Element::Widget(w);
                    Ok(())
                },
                Err(e) => Err(e),
            }
        },
    }
}

fn update_group_child(child: &mut Element, reader: &mut TokenReader) -> (res: Result<(), Error>)
    ensures
        final(reader).rest().len() <= old(reader).rest().len(),
        match patch_child(Some(element_view(*old(child))), GROUP, old(reader).rest()) {
            Ok((e, r)) => res is Ok && element_view(*final(child)) == e && final(reader).rest() == r,
            Err(e) => res == Err::<(), Error>(e),
        },
    decreases old(reader).rest().len(), 3nat,
{
    match child {
        Element::Group(g) => g.update(reader),
        _ => {
            let mut g = Group::default();
            match g.update(reader) {
                Ok(()) => {
                    *child = Element::Group(g);
                    Ok(())
                },
                Err(e) => Err(e),
            }
        },
    }
}

fn update_grid_child(child: &mut Element, reader: &mut TokenReader) -> (res: Result<(), Error>)
    ensures
        final(reader).rest().len() <= old(reader).rest().len(),
        match patch_child(Some(element_view(*old(child))), GRID, old(reader).rest()) {
            Ok((e, r)) => res is Ok && element_view(*final(child)) == e && final(reader).rest() == r,
            Err(e) => res == Err::<(), Error>(e),
        },
    decreases old(reader).rest().len(), 3nat,
{
    match child {
        Element::Grid(g) => g.update(reader),
        _ => {
            let mut g = Grid::default();
            match g.update(reader) {
                Ok(()) => {
                    *child = Element::Grid(g);
                    Ok(())
                },
                Err(e) => Err(e),
            }
        },
    }
}

fn update_modelelement_child(child: &mut Element, reader: &mut TokenReader) -> (res: Result<(), Error>)
    ensures
        final(reader).rest().len() <= old(reader).rest().len(),
        match patch_child(Some(element_view(*old(child))), MODEL, old(reader).rest()) {
            Ok((e, r)) => res is Ok && element_view(*final(child)) == e && final(reader).rest() == r,
            Err(e) => res == Err::<(), Error>(e),
        },
    decreases old(reader).rest().len(), 3nat,
{
    match child {
        Element::Model(m) => m.update(reader),
        _ => {
            let mut m = ModelElement::default();
            match m.update(reader) {
                Ok(()) => {
                    *child = Element::Model(m);
                    Ok(())
                },
                Err(e) => Err(e),
            }
        },
    }
}

fn update_text_child(child: &mut Element, reader: &mut TokenReader) -> (res: Result<(), Error>)
    ensures
        final(reader).rest().len() <= old(reader).rest().len(),
        match patch_child(Some(element_view(*old(child))), TEXT, old(reader).rest()) {
            Ok((e, r)) => res is Ok && element_view(*final(child)) == e && final(reader).rest() == r,
            Err(e) => res == Err::<(), Error>(e),
        },
    decreases old(reader).rest().len(), 3nat,
{
    match child {
        Element::Text(x) => x.update(reader),
        _ => {
            let mut x = Text::default();
            match x.update(reader) {
                Ok(()) => {
                    *child = Element::Text(x);
                    Ok(())
                },
                Err(e) => Err(e),
            }
        },
    }
}

/// Patches the child at hand from an incoming child of kind `tag`.
fn update_child(child: &mut Element, tag: Tag, reader: &mut TokenReader) -> (res: Result<(), Error>)
    ensures
        final(reader).rest().len() <= old(reader).rest().len(),
        match patch_child(Some(element_view(*old(child))), tag, old(reader).rest()) {
            Ok((e, r)) => res is Ok && element_view(*final(child)) == e && final(reader).rest() == r,
            Err(e) => res == Err::<(), Error>(e),
        },
    decreases old(reader).rest().len(), 4nat,
{
    if tag == WIDGET {
        update_widget_child(child, reader)
    } else if tag == GROUP {
        update_group_child(child, reader)
    } else if tag == GRID {
        update_grid_child(child, reader)
    } else if tag == MODEL {
        update_modelelement_child(child, reader)
    } else if tag == TEXT {
        update_text_child(child, reader)
    } else {
        Err(Error::UnknownTag)
    }
}

/// A new child of kind `tag`: a default node patched from the incoming one.
fn new_child(tag: Tag, reader: &mut TokenReader) -> (res: Result<Element, Error>)
    ensures
            final(reader).rest().len() <= old(reader).rest().len(),
        match patch_child(None, tag, old(reader).rest()) {
            Ok((e, r)) => res matches Ok(x) && element_view(x) == e && final(reader).rest() == r,
            Err(e) => res matches Err(e2) && e2 == e,
        },
    decreases old(reader).rest().len(), 3nat,
{
    if tag == WIDGET {
        let mut w = Widget::default();
        match w.update(reader) {
            Ok(()) => Ok(Element::Widget(w)),
            Err(e) => Err(e),
        }
    } else if tag == GROUP {
        let mut g = Group::default();
        match g.update(reader) {
            Ok(()) => Ok(Element::Group(g)),
            Err(e) => Err(e),
        }
    } else if tag == GRID {
        let mut g = Grid::default();
        match g.update(reader) {
            Ok(()) => Ok(Element::Grid(g)),
            Err(e) => Err(e),
        }
    } else if tag == MODEL {
        let mut m = ModelElement::default();
        match m.update(reader) {
            Ok(()) => Ok(Element::Model(m)),
            Err(e) => Err(e),
        }
    } else if tag == TEXT {
        let mut x = Text::default();
        match x.update(reader) {
            Ok(()) => Ok(Element::Text(x)),
            Err(e) => Err(e),
        }
    } else {
        Err(Error::UnknownTag)
    }
}

/// Patches a children list from a children group whose start has been read:
/// positionally, replacing a child whose kind differs, appending beyond the
/// end, and cutting the list to the number of children received.
pub fn update_children(children: &mut Vec<Element>, reader: &mut TokenReader) -> (res: Result<(), Error>)
    ensures
            final(reader).rest().len() <= old(reader).rest().len(),
        match patch_children(elements_view(old(children)@), old(reader).rest(), 0) {
            Ok((cs, r)) => res is Ok && elements_view(final(children)@) == cs && final(reader).rest() == r,
            Err(e) => res == Err::<(), Error>(e),
        },
    decreases old(reader).rest().len(), 5nat,
{
    let mut i: usize = 0;
    loop
        invariant
            i <= children@.len(),
            reader.rest().len() <= old(reader).rest().len(),
            patch_children(elements_view(old(children)@), old(reader).rest(), 0) == patch_children(
                elements_view(children@),
                reader.rest(),
                i as nat,
            ),
        decreases reader.rest().len(),
    {
        let ghost ts = reader.rest();
        let ghost cs = elements_view(children@);
        let more = match reader.expect_start_or_end() {
            Ok(b) => b,
            Err(e) => return Err(e),
        };
        if !more {
            children.truncate(i);
            assert(elements_view(children@) =~= (if i < cs.len() {
                cs.take(i as int)
            } else {
                cs
            }));
            return Ok(());
        }
        let tag = match reader.expect_tag() {
            Ok(t) => t,
            Err(e) => return Err(e),
        };
        if i < children.len() {
            match update_child(&mut children[i], tag, reader) {
                Ok(()) => {},
                Err(e) => return Err(e),
            }
            assert(elements_view(children@) =~= cs.update(i as int, element_view(children@[i as int])));
        } else {
            match new_child(tag, reader) {
                Ok(e) => {
                    children.push(e);
                    assert(elements_view(children@) =~= cs.push(element_view(children@[i as int])));
                },
                Err(e) => return Err(e),
            }
        }
        assert(i < children.len());
        i = i + 1;
    }
}

/// The binding of the first pair whose event kind is `ty`.
pub open spec fn first_binding(bs: Seq<(EventType, Binding)>, ty: EventType) -> Option<Binding>
    decreases bs.len(),
{
    if bs.len() == 0 {
        None
    } else if bs[0].0 == ty {
        Some(bs[0].1)
    } else {
        first_binding(bs.drop_first(), ty)
    }
}

impl Widget {
    pub fn find_binding(&self, target_event_type: EventType) -> (r: Option<Binding>)
        ensures
            r == first_binding(self.bindings@, target_event_type),
    {
        let mut i: usize = 0;
        assert(self.bindings@.skip(0) =~= self.bindings@);
        while i < self.bindings.len()
            invariant
                i <= self.bindings@.len(),
                first_binding(self.bindings@, target_event_type) == first_binding(
                    self.bindings@.skip(i as int),
                    target_event_type,
                ),
            decreases self.bindings@.len() - i,
        {
            let (event_type, binding) = self.bindings[i];
            assert(self.bindings@.skip(i as int).drop_first() =~= self.bindings@.skip(i + 1));
            if event_type == target_event_type {
                return Some(binding);
            }
            i = i + 1;
        }
        None
    }
}

// ---------------------------------------------------------------------------
// Patching with what was written.

type TV = TokenView<u64>;

pub open spec fn kind_tag(e: ElementView) -> Tag {
    match e {
        ElementView::Widget(_) => WIDGET,
        ElementView::Group(_) => GROUP,
        ElementView::Grid(_) => GRID,
        ElementView::Model(_) => MODEL,
        ElementView::Text(_) => TEXT,
    }
}

/// Every shape in the tree has fewer paths than an `Int` can count.
pub open spec fn element_fits(e: ElementView) -> bool
    decreases e, 0nat,
{
    match e {
        ElementView::Widget(w) => all_fit(w.children),
        ElementView::Group(g) => all_fit(g.children),
        ElementView::Model(m) => model_fits(m.model),
        _ => true,
    }
}

pub open spec fn all_fit(cs: Seq<ElementView>) -> bool
    decreases cs, 1nat,
{
    if cs.len() == 0 {
        true
    } else {
        all_fit(cs.subrange(0, cs.len() - 1)) && element_fits(cs[cs.len() - 1])
    }
}

/// The node at position `k` of a list, if there is one.
pub open spec fn old_at(cs: Seq<ElementView>, k: int) -> Option<ElementView> {
    if 0 <= k < cs.len() {
        Some(cs[k])
    } else {
        None
    }
}

/// The widget that patching `base` with the written form of `w` leaves:
/// every written field taken from `w`, a border colour kept from `base`
/// where `w` writes no border, and the children patched position by
/// position.
pub open spec fn patched_widget(base: WidgetView, w: WidgetView) -> WidgetView
    decreases w,
{
    WidgetView {
        location: w.location,
        size: w.size,
        fill_colour: w.fill_colour,
        border_width: if w.border_width > 0 {
            w.border_width
        } else {
            0
        },
        border_colour: if w.border_width > 0 {
            w.border_colour
        } else {
            base.border_colour
        },
        bindings: w.bindings,
        children: patched_list(base.children, w.children),
    }
}

pub open spec fn patched_group(base: GroupView, g: GroupView) -> GroupView
    decreases g,
{
    GroupView { location: g.location, children: patched_list(base.children, g.children) }
}

/// The node that patching `old` (or a default node of the kind, where `old`
/// is absent or of another kind) with the written form of `e` leaves.
pub open spec fn patched_view(old: Option<ElementView>, e: ElementView) -> ElementView
    decreases e,
{
    match e {
        ElementView::Widget(w) => ElementView::Widget(
            patched_widget(
                match old {
                    Some(ElementView::Widget(y)) => y,
                    _ => default_widget(),
                },
                w,
            ),
        ),
        ElementView::Group(g) => ElementView::Group(
            patched_group(
                match old {
                    Some(ElementView::Group(y)) => y,
                    _ => default_group(),
                },
                g,
            ),
        ),
        _ => e,
    }
}

pub open spec fn patched_list(cs: Seq<ElementView>, ds: Seq<ElementView>) -> Seq<ElementView>
    decreases ds,
{
    Seq::new(
        ds.len(),
        |k: int|
            if 0 <= k < ds.len() {
                patched_view(old_at(cs, k), ds[k])
            } else {
                ElementView::Grid(default_grid())
            },
    )
}

proof fn lemma_event_tag(e: EventType)
    ensures
        event_of(event_tag(e)) == Some(e),
{
}

proof fn lemma_bindings_round_trip(acc: Seq<(EventType, Binding)>, bs: Seq<(EventType, Binding)>, rest: Seq<TV>)
    ensures
        patch_bindings(acc, bindings_tokens(bs) + rest) == patch_bindings(acc + bs, rest),
    decreases bs.len(),
{
    if bs.len() == 0 {
        assert(bindings_tokens(bs) + rest =~= rest);
        assert(acc + bs =~= acc);
    } else {
        let init = bs.drop_last();
        let last = bs.last();
        let tt = tv(ValueView::Tag(event_tag(last.0)));
        let ti = tv(ValueView::Int(last.1));
        assert(bindings_tokens(bs) + rest =~= bindings_tokens(init) + (seq![tt] + (seq![ti]
            + rest)));
        lemma_bindings_round_trip(acc, init, seq![tt] + (seq![ti] + rest));
        lemma_cons(tt, seq![ti] + rest);
        lemma_cons(ti, rest);
        lemma_event_tag(last.0);
        assert((acc + init).push((last.0, last.1)) =~= acc + bs);
    }
}

proof fn lemma_grid_round_trip(g0: Grid, g: Grid, r: Seq<TV>)
    ensures
        patch_grid(g0, element_tokens(ElementView::Grid(g)).skip(2) + r) == Ok::<(Grid, Seq<TV>), Error>((g, r)),
{
    let a = tv(ValueView::Box2(g.bounds));
    let b = tv(ValueView::Vec2(g.size));
    let c = tv(ValueView::Vec2(g.offset));
    let d = tv(ValueView::Vec3(g.colour));
    let r4 = seq![TokenView::End] + r;
    let r3 = seq![d] + r4;
    let r2 = seq![c] + r3;
    let r1 = seq![b] + r2;
    assert(element_tokens(ElementView::Grid(g)).skip(2) + r =~= seq![a] + r1);
    lemma_cons(a, r1);
    lemma_cons(b, r2);
    lemma_cons(c, r3);
    lemma_cons(d, r4);
    lemma_skip_end(r);
}

proof fn lemma_text_round_trip(x0: TextView, x: TextView, r: Seq<TV>)
    ensures
        patch_text(x0, element_tokens(ElementView::Text(x)).skip(2) + r) == Ok::<(TextView, Seq<TV>), Error>((x, r)),
{
    let a = tv(ValueView::Vec2(x.location));
    let b = tv(ValueView::Double(x.size));
    let c = tv(ValueView::Vec3(x.colour));
    let d = tv(ValueView::String(x.value));
    let r4 = seq![TokenView::End] + r;
    let r3 = seq![d] + r4;
    let r2 = seq![c] + r3;
    let r1 = seq![b] + r2;
    assert(element_tokens(ElementView::Text(x)).skip(2) + r =~= seq![a] + r1);
    lemma_cons(a, r1);
    lemma_cons(b, r2);
    lemma_cons(c, r3);
    lemma_cons(d, r4);
    lemma_skip_end(r);
}

proof fn lemma_model_element_round_trip(m0: ModelElementView, m: ModelElementView, r: Seq<TV>)
    requires
        model_fits(m.model),
    ensures
        patch_model_element(m0, element_tokens(ElementView::Model(m)).skip(2) + r) == Ok::<
            (ModelElementView, Seq<TV>),
            Error,
        >((m, r)),
{
    let a = tv(ValueView::Vec2(m.location));
    let b = tv(ValueView::Double(m.scale));
    let mt = model_tokens(m.model);
    let r3 = seq![TokenView::End] + r;
    let r2 = mt + r3;
    let r1 = seq![b] + r2;
    assert(element_tokens(ElementView::Model(m)).skip(2) + r =~= seq![a] + r1);
    lemma_cons(a, r1);
    lemma_cons(b, r2);
    assert(r2 =~= seq![mt[0]] + (mt.skip(1) + r3));
    lemma_cons(mt[0], mt.skip(1) + r3);
    lemma_model_round_trip(m.model, r3);
    lemma_skip_end(r);
}

/// The attributes group as a widget writes it.
pub open spec fn attrs_tokens(w: WidgetView) -> Seq<TV> {
    seq![
        tv(ValueView::Vec2(w.location)),
        tv(ValueView::Vec2(w.size)),
        tv(ValueView::Vec4(w.fill_colour)),
        TokenView::Start,
    ] + border_tokens(w) + seq![TokenView::End, TokenView::End]
}

/// What patching the attributes of `w0` with those of `w` gives.
pub open spec fn attrs_patched(w0: WidgetView, w: WidgetView) -> WidgetView {
    WidgetView {
        location: w.location,
        size: w.size,
        fill_colour: w.fill_colour,
        border_width: if w.border_width > 0 {
            w.border_width
        } else {
            0
        },
        border_colour: if w.border_width > 0 {
            w.border_colour
        } else {
            w0.border_colour
        },
        ..w0
    }
}

proof fn lemma_attrs_round_trip(w0: WidgetView, w: WidgetView, r: Seq<TV>)
    ensures
        patch_attrs(w0, attrs_tokens(w) + r) == Ok::<(WidgetView, Seq<TV>), Error>(
            (attrs_patched(w0, w), r),
        ),
{
    let a = tv(ValueView::Vec2(w.location));
    let b = tv(ValueView::Vec2(w.size));
    let c = tv(ValueView::Vec4(w.fill_colour));
    let e = TokenView::<u64>::End;
    let r6 = seq![e] + r;
    let r5 = seq![e] + r6;
    let r4 = border_tokens(w) + r5;
    let r3 = seq![TokenView::Start] + r4;
    let r2 = seq![c] + r3;
    let r1 = seq![b] + r2;
    assert(attrs_tokens(w) + r =~= seq![a] + r1);
    lemma_cons(a, r1);
    lemma_cons(b, r2);
    lemma_cons(c, r3);
    lemma_cons(TokenView::Start, r4);
    lemma_skip_end(r6);
    lemma_skip_end(r);
    if w.border_width > 0 {
        let bi = tv(ValueView::Int(w.border_width));
        let bc = tv(ValueView::Vec3(w.border_colour));
        assert(r4 =~= seq![bi] + (seq![bc] + r5));
        lemma_cons(bi, seq![bc] + r5);
        lemma_cons(bc, r5);
    } else {
        assert(r4 =~= r5);
        lemma_cons(e, r6);
    }
}

proof fn lemma_children_take(cs: Seq<ElementView>, ds: Seq<ElementView>, n: nat)
    requires
        n <= cs.len(),
        children_tokens(cs.subrange(0, n as int)) == children_tokens(ds),
    ensures
        children_tokens(
            if n < cs.len() {
                cs.take(n as int)
            } else {
                cs
            },
        ) == children_tokens(ds),
{
    assert(cs.subrange(0, n as int) =~= (if n < cs.len() {
        cs.take(n as int)
    } else {
        cs
    }));
}

/// Patching a children list from position `i` with written children: the
/// list that results holds, from `i` on, children that write as those did.
/// One written child patched at position `j`.
#[verifier::rlimit(100)]
proof fn lemma_child_step(cs1: Seq<ElementView>, j: nat, last: ElementView, rest: Seq<TV>) -> (cs2: Seq<ElementView>)
    requires
        j <= cs1.len(),
        element_fits(last),
    ensures
        patch_children(cs1, element_tokens(last) + rest, j) == patch_children(cs2, rest, j + 1),
        cs2.len() >= j + 1,
        cs2.subrange(0, j as int) == cs1.subrange(0, j as int),
        element_tokens(cs2[j as int]) == element_tokens(last),
        cs2[j as int] == patched_view(old_at(cs1, j as int), last),
        cs2.len() == (if cs1.len() > j + 1 {
            cs1.len()
        } else {
            j + 1
        }),
        forall|k: int| j < k < cs1.len() ==> cs2[k] == cs1[k],
    decreases last, 1nat,
{
    let et = element_tokens(last);
    let old = if j < cs1.len() {
        Some(cs1[j as int])
    } else {
        None
    };
    let e2 = lemma_element_round_trip(old, last, rest);
    assert(et + rest =~= seq![et[0]] + (seq![et[1]] + (et.skip(2) + rest)));
    lemma_cons(et[0], seq![et[1]] + (et.skip(2) + rest));
    lemma_cons(et[1], et.skip(2) + rest);
    let cs2 = if j < cs1.len() {
        cs1.update(j as int, e2)
    } else {
        cs1.push(e2)
    };
    assert(cs2.subrange(0, j as int) =~= cs1.subrange(0, j as int));
    cs2
}

/// Patching a children list from position `i` with written children: the
/// list that results holds, from `i` on, children that write as those did.
#[verifier::rlimit(60)]
proof fn lemma_children_round_trip(cs: Seq<ElementView>, ds: Seq<ElementView>, rest: Seq<TV>, i: nat) -> (cs2: Seq<ElementView>)
    requires
        i <= cs.len(),
        all_fit(ds),
    ensures
        patch_children(cs, children_tokens(ds) + rest, i) == patch_children(cs2, rest, i + ds.len()),
        i + ds.len() <= cs2.len(),
        children_tokens(cs2.subrange(i as int, (i + ds.len()) as int)) == children_tokens(ds),
        forall|k: int|
            0 <= k < ds.len() ==> cs2[i + k] == patched_view(old_at(cs, i + k), #[trigger] ds[k]),
        cs2.len() == (if cs.len() > i + ds.len() {
            cs.len()
        } else {
            i + ds.len()
        }),
        forall|k: int| i + ds.len() <= k < cs.len() ==> cs2[k] == cs[k],
    decreases ds, 0nat,
{
    if ds.len() == 0 {
        assert(children_tokens(ds) + rest =~= rest);
        assert(cs.subrange(i as int, i as int) =~= ds);
        cs
    } else {
        let init = ds.subrange(0, ds.len() - 1);
        let last = ds[ds.len() - 1];
        let et = element_tokens(last);
        assert(children_tokens(ds) + rest =~= children_tokens(init) + (et + rest));
        let cs1 = lemma_children_round_trip(cs, init, et + rest, i);
        let j = i + init.len();
        let cs2 = lemma_child_step(cs1, j, last, rest);
        assert(old_at(cs1, j as int) == old_at(cs, j as int));
        assert forall|k: int| 0 <= k < ds.len() implies cs2[i + k] == patched_view(
            old_at(cs, i + k),
            #[trigger] ds[k],
        ) by {
            if k < init.len() {
                assert(init[k] == ds[k]);
                assert(cs1[i + k] == patched_view(old_at(cs, i + k), init[k]));
                assert(cs2.subrange(0, j as int)[i + k] == cs1.subrange(0, j as int)[i + k]);
            } else {
                assert(i + k == j);
                assert(last == ds[k]);
            }
        }
        assert(cs2.subrange(i as int, j as int) =~= cs2.subrange(0, j as int).subrange(
            i as int,
            j as int,
        ));
        assert(cs1.subrange(i as int, j as int) =~= cs1.subrange(0, j as int).subrange(
            i as int,
            j as int,
        ));
        assert(cs2.subrange(i as int, (j + 1) as int).subrange(0, (j - i) as int) =~= cs2.subrange(
            i as int,
            j as int,
        ));
        assert(cs2.subrange(i as int, (j + 1) as int)[(j - i) as int] == cs2[j as int]);
        cs2
    }
}

proof fn lemma_group_round_trip(base: GroupView, g: GroupView, r: Seq<TV>) -> (g2: GroupView)
    requires
        all_fit(g.children),
    ensures
        patch_group(base, element_tokens(ElementView::Group(g)).skip(2) + r) == Ok::<(GroupView, Seq<TV>), Error>((g2, r)),
        element_tokens(ElementView::Group(g2)) == element_tokens(ElementView::Group(g)),
        g2 == patched_group(base, g),
    decreases g,
{
    let ct = children_tokens(g.children);
    let e1 = TokenView::<u64>::End;
    let rest = seq![e1] + (seq![e1] + r);
    let a = tv(ValueView::Vec2(g.location));
    assert(element_tokens(ElementView::Group(g)).skip(2) + r =~= seq![a] + (seq![TokenView::Start] + (ct + rest)));
    lemma_cons(a, seq![TokenView::Start] + (ct + rest));
    lemma_cons(TokenView::Start, ct + rest);
    let cs2 = lemma_children_round_trip(base.children, g.children, rest, 0);
    let n = g.children.len();
    lemma_cons(e1, seq![e1] + r);
    lemma_skip_end(r);
    lemma_children_take(cs2, g.children, n);
    let cs3 = if n < cs2.len() {
        cs2.take(n as int)
    } else {
        cs2
    };
    assert(cs3 =~= patched_list(base.children, g.children));
    let g2 = GroupView { location: g.location, children: cs3 };
    assert(element_tokens(ElementView::Group(g2)) =~= element_tokens(ElementView::Group(g)));
    g2
}

proof fn lemma_widget_shape(w: WidgetView, r: Seq<TV>)
    ensures
        element_tokens(ElementView::Widget(w)).skip(2) + r == seq![TokenView::Start] + (attrs_tokens(w)
            + (seq![TokenView::Start] + (bindings_tokens(w.bindings) + (seq![TokenView::End] + (
        seq![TokenView::Start] + (children_tokens(w.children) + (seq![TokenView::End] + (
        seq![TokenView::End] + r)))))))),
{
    assert(element_tokens(ElementView::Widget(w)).skip(2) + r =~= seq![TokenView::Start] + (
    attrs_tokens(w) + (seq![TokenView::Start] + (bindings_tokens(w.bindings) + (
    seq![TokenView::End] + (seq![TokenView::Start] + (children_tokens(w.children) + (
    seq![TokenView::End] + (seq![TokenView::End] + r)))))))));
}

proof fn lemma_widget_tokens_eq(w3: WidgetView, w: WidgetView)
    requires
        w3.location == w.location,
        w3.size == w.size,
        w3.fill_colour == w.fill_colour,
        border_tokens(w3) == border_tokens(w),
        w3.bindings == w.bindings,
        children_tokens(w3.children) == children_tokens(w.children),
    ensures
        element_tokens(ElementView::Widget(w3)) == element_tokens(ElementView::Widget(w)),
{
}

#[verifier::rlimit(60)]
proof fn lemma_widget_round_trip(base: WidgetView, w: WidgetView, r: Seq<TV>) -> (w3: WidgetView)
    requires
        all_fit(w.children),
    ensures
        patch_widget(base, element_tokens(ElementView::Widget(w)).skip(2) + r) == Ok::<(WidgetView, Seq<TV>), Error>((w3, r)),
        element_tokens(ElementView::Widget(w3)) == element_tokens(ElementView::Widget(w)),
        w3.children.len() == w.children.len(),
        w3 == patched_widget(base, w),
    decreases w,
{
    let e1 = TokenView::<u64>::End;
    let st = TokenView::<u64>::Start;
    let ct = children_tokens(w.children);
    let bt = bindings_tokens(w.bindings);
    let r_children = ct + (seq![e1] + (seq![e1] + r));
    let r_bindings = bt + (seq![e1] + (seq![st] + r_children));
    let r_attrs = attrs_tokens(w) + (seq![st] + r_bindings);
    lemma_widget_shape(w, r);
    lemma_cons(st, r_attrs);
    lemma_attrs_round_trip(base, w, seq![st] + r_bindings);
    let w1 = attrs_patched(base, w);
    lemma_cons(st, r_bindings);
    lemma_bindings_round_trip(seq![], w.bindings, seq![e1] + (seq![st] + r_children));
    assert(seq![] + w.bindings =~= w.bindings);
    lemma_cons(e1, seq![st] + r_children);
    lemma_cons(st, r_children);
    let w2 = WidgetView { bindings: w.bindings, ..w1 };
    let cs2 = lemma_children_round_trip(w2.children, w.children, seq![e1] + (seq![e1] + r), 0);
    let n = w.children.len();
    lemma_cons(e1, seq![e1] + r);
    lemma_skip_end(r);
    lemma_children_take(cs2, w.children, n);
    let cs3 = if n < cs2.len() {
        cs2.take(n as int)
    } else {
        cs2
    };
    assert(cs3 =~= patched_list(base.children, w.children));
    let w3 = WidgetView { children: cs3, ..w2 };
    assert(border_tokens(w3) == border_tokens(w));
    lemma_widget_tokens_eq(w3, w);
    w3
}

/// Patching any node with the written form of `e` consumes exactly that
/// form and gives a node that writes as `e` does.
proof fn lemma_element_round_trip(old: Option<ElementView>, e: ElementView, r: Seq<TV>) -> (e2: ElementView)
    requires
        element_fits(e),
    ensures
        patch_child(old, kind_tag(e), element_tokens(e).skip(2) + r) == Ok::<(ElementView, Seq<TV>), Error>((e2, r)),
        element_tokens(e2) == element_tokens(e),
        e2 == patched_view(old, e),
    decreases e, 0nat,
{
    match e {
        ElementView::Grid(g) => {
            let base = match old {
                Some(ElementView::Grid(x)) => x,
                _ => default_grid(),
            };
            lemma_grid_round_trip(base, g, r);
            e
        },
        ElementView::Text(x) => {
            let base = match old {
                Some(ElementView::Text(y)) => y,
                _ => default_text(),
            };
            lemma_text_round_trip(base, x, r);
            e
        },
        ElementView::Model(m) => {
            let base = match old {
                Some(ElementView::Model(y)) => y,
                _ => default_model_element(),
            };
            lemma_model_element_round_trip(base, m, r);
            e
        },
        ElementView::Group(g) => {
            let base = match old {
                Some(ElementView::Group(y)) => y,
                _ => default_group(),
            };
            ElementView::Group(lemma_group_round_trip(base, g, r))
        },
        ElementView::Widget(w) => {
            let base = match old {
                Some(ElementView::Widget(y)) => y,
                _ => default_widget(),
            };
            ElementView::Widget(lemma_widget_round_trip(base, w, r))
        },
    }
}

/// The result of patching leaves a widget that writes as `b` does, with as
/// many children, and the tokens `r` unread.
pub open spec fn writes_as(res: Result<(WidgetView, Seq<TV>), Error>, b: WidgetView, r: Seq<TV>) -> bool {
    match res {
        Ok((a2, rest)) => rest == r && element_tokens(ElementView::Widget(a2)) == element_tokens(
            ElementView::Widget(b),
        ) && a2.children.len() == b.children.len(),
        Err(_) => false,
    }
}

/// The widget that patching `a` with the written form of `b` leaves.
pub open spec fn patched_with(a: WidgetView, b: WidgetView, r: Seq<TV>) -> WidgetView {
    match patch_widget(a, element_tokens(ElementView::Widget(b)).skip(2) + r) {
        Ok((a2, _)) => a2,
        Err(_) => a,
    }
}

/// Patch round trip: patching any widget `a` with the written form of a
/// widget `b` (its start and kind tag read) consumes exactly that form and
/// leaves a widget that writes the same tokens as `b`, with as many children
/// as `b` has; patching that widget again with the same tokens leaves one
/// that writes the same tokens still.
pub proof fn lemma_patch_round_trip(a: WidgetView, b: WidgetView, r: Seq<TV>)
    requires
        all_fit(b.children),
    ensures
        writes_as(patch_widget(a, element_tokens(ElementView::Widget(b)).skip(2) + r), b, r),
        writes_as(
            patch_widget(patched_with(a, b, r), element_tokens(ElementView::Widget(b)).skip(2) + r),
            b,
            r,
        ),
{
    lemma_widget_round_trip(a, b, r);
    lemma_widget_round_trip(patched_with(a, b, r), b, r);
}

// ---------------------------------------------------------------------------
// A session: a stream of top-level groups, each patching the root.

/// What one step of a session did.
#[derive(Debug, PartialEq)]
pub enum SessionStep {
    /// A group was read and the root patched from it.
    Applied,
    /// The stream ended between groups.
    Closed,
    /// The stream held an error; the root was reset to a default widget and
    /// the session ends.
    Failed(Error),
}

/// The tokens begin a group whose kind tag follows its start.
pub open spec fn group_ahead(ts: Seq<TokenView<u64>>) -> bool {
    next_token(ts) is Start && next_token(after_next(ts)) matches TokenView::Value(ValueView::Tag(_))
}

/// Reads the next top-level group and patches the root from it; on any
/// error the root is reset to a default widget.
pub fn apply_group(root: &mut Widget, reader: &mut TokenReader) -> (r: SessionStep)
    ensures
        r is Closed <==> next_token(old(reader).rest()) is EndOfFile,
        r is Closed ==> final(root)@ == old(root)@,
        r is Applied ==> group_ahead(old(reader).rest()) && patch_widget(
            old(root)@,
            after_next(after_next(old(reader).rest())),
        ) == Ok::<(WidgetView, Seq<TokenView<u64>>), Error>((final(root)@, final(reader).rest())),
        r matches SessionStep::Failed(e) ==> final(root)@ == default_widget() && (if group_ahead(
            old(reader).rest(),
        ) {
            patch_widget(old(root)@, after_next(after_next(old(reader).rest()))) == Err::<
                (WidgetView, Seq<TokenView<u64>>),
                Error,
            >(e)
        } else {
            e == Error::UnexpectedToken
        }),
{
    match reader.read_next() {
        Token::Start => {},
        Token::EndOfFile => return SessionStep::Closed,
        _ => {
            *root = Widget::default();
            return SessionStep::Failed(Error::UnexpectedToken);
        },
    }
    match reader.expect_tag() {
        Ok(_) => {},
        Err(e) => {
            *root = Widget::default();
            return SessionStep::Failed(e);
        },
    }
    match root.update(reader) {
        Ok(()) => SessionStep::Applied,
        Err(e) => {
            *root = Widget::default();
            SessionStep::Failed(e)
        },
    }
}

proof fn lemma_patched_list_idempotent(cs: Seq<ElementView>, ds: Seq<ElementView>)
    ensures
        patched_list(patched_list(cs, ds), ds) == patched_list(cs, ds),
    decreases ds, 1nat,
{
    let p = patched_list(cs, ds);
    assert forall|k: int| 0 <= k < ds.len() implies #[trigger] patched_list(p, ds)[k] == p[k] by {
        lemma_patched_idempotent(old_at(cs, k), ds[k]);
    }
    assert(patched_list(p, ds) =~= p);
}

/// Patching a node with the written form of `e` a second time leaves it as
/// the first time did.
pub proof fn lemma_patched_idempotent(old: Option<ElementView>, e: ElementView)
    ensures
        patched_view(Some(patched_view(old, e)), e) == patched_view(old, e),
    decreases e, 0nat,
{
    match e {
        ElementView::Widget(w) => {
            let base = match old {
                Some(ElementView::Widget(y)) => y,
                _ => default_widget(),
            };
            lemma_patched_list_idempotent(base.children, w.children);
        },
        ElementView::Group(g) => {
            let base = match old {
                Some(ElementView::Group(y)) => y,
                _ => default_group(),
            };
            lemma_patched_list_idempotent(base.children, g.children);
        },
        _ => {},
    }
}

/// Patch idempotence: patching a widget `a` with the written form of `b`
/// (its start and kind tag read) consumes exactly that form and leaves
/// `patched_widget(a, b)`: every field that `b` writes taken from `b`, its
/// children patched position by position, as many as `b` has. Patching
/// that widget again with the same tokens leaves it unchanged.
pub proof fn lemma_patch_idempotent(a: WidgetView, b: WidgetView, r: Seq<TV>)
    requires
        all_fit(b.children),
    ensures
        patch_widget(a, element_tokens(ElementView::Widget(b)).skip(2) + r) == Ok::<
            (WidgetView, Seq<TV>),
            Error,
        >((patched_widget(a, b), r)),
        patch_widget(patched_widget(a, b), element_tokens(ElementView::Widget(b)).skip(2) + r)
            == Ok::<(WidgetView, Seq<TV>), Error>((patched_widget(a, b), r)),
        patched_widget(a, b).children.len() == b.children.len(),
{
    lemma_widget_round_trip(a, b, r);
    lemma_widget_round_trip(patched_widget(a, b), b, r);
    lemma_patched_idempotent(Some(ElementView::Widget(a)), ElementView::Widget(b));
}

/// `x` is `e` but for the colour of borders that `e` does not write.
pub open spec fn same_but_unwritten_borders(x: ElementView, e: ElementView) -> bool
    decreases e, 0nat,
{
    match (x, e) {
        (ElementView::Widget(v), ElementView::Widget(w)) => v.location == w.location && v.size
            == w.size && v.fill_colour == w.fill_colour && v.border_width == w.border_width && (
        w.border_width > 0 ==> v.border_colour == w.border_colour) && v.bindings == w.bindings
            && all_same(v.children, w.children),
        (ElementView::Group(v), ElementView::Group(g)) => v.location == g.location && all_same(
            v.children,
            g.children,
        ),
        _ => x == e,
    }
}

pub open spec fn all_same(xs: Seq<ElementView>, es: Seq<ElementView>) -> bool
    decreases es, 1nat,
{
    xs.len() == es.len() && forall|k: int|
        0 <= k < es.len() ==> same_but_unwritten_borders(xs[k], #[trigger] es[k])
}

/// No widget in the tree has a negative border width.
pub open spec fn widths_non_negative(e: ElementView) -> bool
    decreases e, 0nat,
{
    match e {
        ElementView::Widget(w) => w.border_width >= 0 && all_non_negative(w.children),
        ElementView::Group(g) => all_non_negative(g.children),
        _ => true,
    }
}

pub open spec fn all_non_negative(es: Seq<ElementView>) -> bool
    decreases es, 1nat,
{
    forall|k: int| 0 <= k < es.len() ==> widths_non_negative(#[trigger] es[k])
}

proof fn lemma_patched_list_same(cs: Seq<ElementView>, ds: Seq<ElementView>)
    requires
        all_non_negative(ds),
    ensures
        all_same(patched_list(cs, ds), ds),
    decreases ds, 1nat,
{
    assert forall|k: int| 0 <= k < ds.len() implies same_but_unwritten_borders(
        patched_list(cs, ds)[k],
        #[trigger] ds[k],
    ) by {
        lemma_patched_same(old_at(cs, k), ds[k]);
    }
}

/// Where no border width is negative, patching with the written form of
/// `e` gives `e` back, but for the colour of borders that are not written.
pub proof fn lemma_patched_same(old: Option<ElementView>, e: ElementView)
    requires
        widths_non_negative(e),
    ensures
        same_but_unwritten_borders(patched_view(old, e), e),
    decreases e, 0nat,
{
    match e {
        ElementView::Widget(w) => {
            let base = match old {
                Some(ElementView::Widget(y)) => y,
                _ => default_widget(),
            };
            lemma_patched_list_same(base.children, w.children);
        },
        ElementView::Group(g) => {
            let base = match old {
                Some(ElementView::Group(y)) => y,
                _ => default_group(),
            };
            lemma_patched_list_same(base.children, g.children);
        },
        _ => {},
    }
}

} // verus!
