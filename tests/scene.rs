use alice::binary_reader::decode_tokens;
use alice::binary_writer::BinaryWriter;
use alice::model::{Model, Path, Point};
use alice::events::encode_events;
use alice::reader::{next_depth, TokenReader};
use alice::value::{Error, Token, Value};
use alice::widget::{
    apply_group, update_children, Element, Event, EventType, Grid, Group, ModelElement, SessionStep,
    Text, Widget, GRID, TEXT, WIDGET,
};
use alice::writer::Writer;

fn b(x: f64) -> u64 {
    x.to_bits()
}

fn v2(x: f64, y: f64) -> (u64, u64) {
    (b(x), b(y))
}

fn v3(x: f64, y: f64, z: f64) -> (u64, u64, u64) {
    (b(x), b(y), b(z))
}

fn v4(x: f64, y: f64, z: f64, w: f64) -> (u64, u64, u64, u64) {
    (b(x), b(y), b(z), b(w))
}

fn widget(location: (u64, u64), size: (u64, u64), fill: (u64, u64, u64, u64), border_width: i32, bindings: Vec<(EventType, i32)>, children: Vec<Element>) -> Widget {
    Widget {
        location,
        size,
        fill_colour: fill,
        border_colour: v3(0.0, 0.0, 0.0),
        border_width,
        bindings,
        children,
    }
}

fn text(value: &str) -> Element {
    Element::Text(Text {
        location: v2(0.0, 0.0),
        size: b(12.0),
        colour: v3(1.0, 1.0, 1.0),
        value: value.to_string(),
    })
}

fn small(binding: i32) -> Element {
    Element::Widget(widget(
        v2(0.0, 0.0),
        v2(5.0, 5.0),
        v4(1.0, 1.0, 1.0, 1.0),
        1,
        vec![(EventType::Down, binding), (EventType::Up, binding)],
        Vec::new(),
    ))
}

fn sample() -> Element {
    let point = Point { location: v2(0.0, 0.0), curve_bias: b(0.0) };
    Element::Widget(widget(
        v2(0.0, 0.0),
        v2(1000.0, 1000.0),
        v4(0.0, 0.0, 0.0, 1.0),
        0,
        Vec::new(),
        vec![
            Element::Widget(widget(
                v2(0.0, 0.0),
                v2(1000.0, 1000.0),
                v4(0.1, 0.1, 0.1, 1.0),
                0,
                Vec::new(),
                vec![
                    Element::Grid(Grid {
                        bounds: (v2(0.0, 0.0), v2(1000.0, 1000.0)),
                        size: v2(20.0, 20.0),
                        offset: v2(0.0, 0.0),
                        colour: v3(0.3, 0.3, 0.3),
                    }),
                    Element::Model(ModelElement {
                        location: v2(500.0, 500.0),
                        scale: b(50.0),
                        model: Model {
                            paths: vec![Path { colour: v3(0.9, 0.3, 0.7), points: vec![point; 4] }],
                        },
                    }),
                    Element::Group(Group {
                        location: v2(0.0, 0.0),
                        children: vec![small(1004), small(1005), small(1006), small(1007)],
                    }),
                ],
            )),
            Element::Widget(widget(
                v2(10.0, 960.0),
                v2(80.0, 30.0),
                v4(0.1, 0.1, 0.1, 1.0),
                0,
                Vec::new(),
                vec![
                    Element::Widget(widget(
                        v2(5.0, 5.0),
                        v2(20.0, 20.0),
                        v4(0.9, 0.0, 0.0, 1.0),
                        0,
                        vec![(EventType::Down, 1001)],
                        vec![text("New")],
                    )),
                    Element::Widget(widget(
                        v2(35.0, 5.0),
                        v2(20.0, 20.0),
                        v4(0.0, 0.9, 0.0, 1.0),
                        0,
                        vec![(EventType::Down, 1002)],
                        vec![text("Open")],
                    )),
                ],
            )),
        ],
    ))
}

fn bytes_of(e: &Element) -> Vec<u8> {
    let mut writer = BinaryWriter::new(Vec::new());
    e.write(&mut writer);
    writer.into_inner()
}

/// A reader placed after the start and kind tag of the root group.
fn body_reader(bytes: Vec<u8>) -> TokenReader {
    let mut reader = TokenReader::new(decode_tokens(bytes).unwrap());
    reader.expect_start().unwrap();
    reader.expect_tag().unwrap();
    reader
}

fn patched(root: &mut Widget, bytes: Vec<u8>) -> Result<(), Error> {
    let mut reader = body_reader(bytes);
    root.update(&mut reader)
}

#[test]
fn write_and_read() {
    let orig = bytes_of(&sample());
    let mut root = Widget::default();
    patched(&mut root, orig.clone()).unwrap();
    assert_eq!(bytes_of(&Element::Widget(root)), orig);
}

#[test]
fn patching_twice_is_a_no_op() {
    let target = bytes_of(&sample());
    let mut root = widget(v2(3.0, 4.0), v2(1.0, 1.0), v4(0.5, 0.5, 0.5, 0.5), 2, vec![(EventType::Key, 9)], vec![
        Element::Grid(Grid::default()),
        text("old"),
        small(1),
        small(2),
        small(3),
    ]);
    patched(&mut root, target.clone()).unwrap();
    let once = bytes_of(&Element::Widget(root));
    assert_eq!(once, target);
    let mut root2 = Widget::default();
    patched(&mut root2, target.clone()).unwrap();
    patched(&mut root2, target.clone()).unwrap();
    assert_eq!(bytes_of(&Element::Widget(root2)), target);
}

fn two_widget_root() -> Widget {
    let mut second = widget(v2(10.0, 10.0), v2(20.0, 20.0), v4(0.0, 0.0, 1.0, 1.0), 5, Vec::new(), Vec::new());
    second.border_colour = v3(1.0, 0.0, 0.0);
    widget(
        v2(0.0, 0.0),
        v2(100.0, 100.0),
        v4(0.0, 0.0, 0.0, 1.0),
        0,
        Vec::new(),
        vec![
            Element::Widget(widget(v2(1.0, 1.0), v2(5.0, 5.0), v4(1.0, 1.0, 1.0, 1.0), 0, Vec::new(), Vec::new())),
            Element::Widget(second),
        ],
    )
}

#[test]
fn omitted_child_is_dropped() {
    let mut root = two_widget_root();
    let mut described = two_widget_root();
    described.children.truncate(1);
    patched(&mut root, bytes_of(&Element::Widget(described))).unwrap();
    assert_eq!(root.children.len(), 1);
    assert_eq!(root.location, v2(0.0, 0.0));
    assert_eq!(root.size, v2(100.0, 100.0));
    assert_eq!(root.fill_colour, v4(0.0, 0.0, 0.0, 1.0));
    match &root.children[0] {
        Element::Widget(w) => {
            assert_eq!(w.location, v2(1.0, 1.0));
            assert_eq!(w.size, v2(5.0, 5.0));
        },
        _ => panic!("first child changed kind"),
    }
}

fn tokens_bytes(build: impl Fn(&mut BinaryWriter)) -> Vec<u8> {
    let mut writer = BinaryWriter::new(Vec::new());
    build(&mut writer);
    writer.into_inner()
}

#[test]
fn wrong_fill_colour_kind_is_an_unexpected_token() {
    let bytes = tokens_bytes(|w| {
        w.write_start();
        w.write_value(&Value::Tag(WIDGET));
        w.write_start();
        w.write_value(&Value::Vec2(v2(0.0, 0.0)));
        w.write_value(&Value::Vec2(v2(1.0, 1.0)));
        w.write_value(&Value::Int(0));
        w.write_end();
        w.write_end();
    });
    let mut root = two_widget_root();
    assert_eq!(patched(&mut root, bytes), Err(Error::UnexpectedToken));
}

#[test]
fn prefix_leaves_the_rest_unchanged() {
    let bytes = tokens_bytes(|w| {
        w.write_start();
        w.write_value(&Value::Tag(WIDGET));
        w.write_start();
        w.write_value(&Value::Vec2(v2(7.0, 8.0)));
        w.write_end();
        w.write_end();
    });
    let mut root = two_widget_root();
    patched(&mut root, bytes).unwrap();
    assert_eq!(root.location, v2(7.0, 8.0));
    assert_eq!(root.size, v2(100.0, 100.0));
    assert_eq!(root.children.len(), 2);
}

#[test]
fn empty_border_group_resets_width() {
    let bytes = tokens_bytes(|w| {
        w.write_start();
        w.write_value(&Value::Tag(WIDGET));
        w.write_start();
        w.write_value(&Value::Vec2(v2(0.0, 0.0)));
        w.write_value(&Value::Vec2(v2(1.0, 1.0)));
        w.write_value(&Value::Vec4(v4(1.0, 1.0, 1.0, 1.0)));
        w.write_start();
        w.write_end();
        w.write_end();
        w.write_end();
    });
    let mut root = widget(v2(0.0, 0.0), v2(1.0, 1.0), v4(0.0, 0.0, 0.0, 0.0), 4, Vec::new(), Vec::new());
    patched(&mut root, bytes).unwrap();
    assert_eq!(root.border_width, 0);
}

#[test]
fn unknown_attribute_group_is_skipped() {
    let bytes = tokens_bytes(|w| {
        w.write_start();
        w.write_value(&Value::Tag(WIDGET));
        w.write_start();
        w.write_value(&Value::Vec2(v2(2.0, 2.0)));
        w.write_value(&Value::Vec2(v2(3.0, 3.0)));
        w.write_value(&Value::Vec4(v4(1.0, 1.0, 1.0, 1.0)));
        w.write_start();
        w.write_value(&Value::Int(3));
        w.write_value(&Value::Vec3(v3(0.5, 0.5, 0.5)));
        w.write_end();
        w.write_start();
        w.write_value(&Value::Tag(0x5a5a5a5a));
        w.write_value(&Value::Int(99));
        w.write_end();
        w.write_end();
        w.write_start();
        w.write_value(&Value::Tag(0x444f574e));
        w.write_value(&Value::Int(42));
        w.write_end();
        w.write_end();
    });
    let mut root = Widget::default();
    patched(&mut root, bytes).unwrap();
    assert_eq!(root.location, v2(2.0, 2.0));
    assert_eq!(root.border_width, 3);
    assert_eq!(root.border_colour, v3(0.5, 0.5, 0.5));
    assert_eq!(root.bindings, vec![(EventType::Down, 42)]);
    assert_eq!(root.find_binding(EventType::Down), Some(42));
    assert_eq!(root.find_binding(EventType::Up), None);
}

#[test]
fn unknown_child_kind_is_an_error() {
    let bytes = tokens_bytes(|w| {
        w.write_start();
        w.write_value(&Value::Tag(0x5a5a5a5a));
        w.write_end();
        w.write_end();
    });
    let mut reader = TokenReader::new(decode_tokens(bytes).unwrap());
    let mut children: Vec<Element> = Vec::new();
    assert_eq!(update_children(&mut children, &mut reader), Err(Error::UnknownTag));
}

#[test]
fn unknown_event_kind_is_an_error() {
    let bytes = tokens_bytes(|w| {
        w.write_start();
        w.write_value(&Value::Tag(WIDGET));
        w.write_start();
        w.write_end();
        w.write_start();
        w.write_value(&Value::Tag(0x5a5a5a5a));
        w.write_value(&Value::Int(1));
        w.write_end();
        w.write_end();
    });
    let mut root = Widget::default();
    assert_eq!(patched(&mut root, bytes), Err(Error::UnknownTag));
}

#[test]
fn child_of_another_kind_is_replaced() {
    let bytes = tokens_bytes(|w| {
        w.write_start();
        w.write_value(&Value::Tag(TEXT));
        w.write_value(&Value::Vec2(v2(1.0, 2.0)));
        w.write_end();
        w.write_start();
        w.write_value(&Value::Tag(GRID));
        w.write_end();
        w.write_start();
        w.write_value(&Value::Tag(GRID));
        w.write_end();
        w.write_end();
    });
    let mut reader = TokenReader::new(decode_tokens(bytes).unwrap());
    let mut children = vec![Element::Grid(Grid::default()), text("keep")];
    update_children(&mut children, &mut reader).unwrap();
    assert_eq!(children.len(), 3);
    match &children[0] {
        Element::Text(t) => {
            assert_eq!(t.location, v2(1.0, 2.0));
            assert_eq!(t.value, "");
        },
        _ => panic!("expected a text"),
    }
    assert!(matches!(children[1], Element::Grid(_)));
    assert!(matches!(children[2], Element::Grid(_)));
    assert_eq!(reader.read_next(), Token::EndOfFile);
}

#[test]
fn children_list_has_the_incoming_length() {
    for n in 0..4usize {
        let mut described = Widget::default();
        for i in 0..n {
            described.children.push(small(i as i32));
        }
        let mut root = two_widget_root();
        root.children.push(text("extra"));
        patched(&mut root, bytes_of(&Element::Widget(described))).unwrap();
        assert_eq!(root.children.len(), n);
    }
}

#[test]
fn model_read_and_write() {
    let model = Model {
        paths: vec![Path {
            colour: v3(0.9, 0.3, 0.7),
            points: vec![
                Point { location: v2(1.0, 2.0), curve_bias: b(0.5) },
                Point { location: v2(3.0, 4.0), curve_bias: b(0.0) },
            ],
        }],
    };
    let mut writer = BinaryWriter::new(Vec::new());
    model.write(&mut writer);
    let mut reader = TokenReader::new(decode_tokens(writer.into_inner()).unwrap());
    assert_eq!(Model::read(&mut reader), Ok(model));
    let mut reader = TokenReader::new(vec![Token::Start, Token::Value(Value::Tag(0x5a5a5a5a))]);
    assert_eq!(Model::read(&mut reader), Err(Error::UnknownTag));
}

fn reader_of(bytes: Vec<u8>) -> TokenReader {
    TokenReader::new(decode_tokens(bytes).unwrap())
}

#[test]
fn session_resets_root_on_error() {
    let bytes = tokens_bytes(|w| {
        w.write_start();
        w.write_value(&Value::Tag(WIDGET));
        w.write_start();
        w.write_value(&Value::Vec2(v2(0.0, 0.0)));
        w.write_value(&Value::Vec2(v2(1.0, 1.0)));
        w.write_value(&Value::Int(0));
        w.write_end();
        w.write_end();
    });
    let mut root = two_widget_root();
    let mut reader = reader_of(bytes);
    assert_eq!(apply_group(&mut root, &mut reader), SessionStep::Failed(Error::UnexpectedToken));
    assert!(root.children.is_empty());
    assert_eq!(root.size, (0, 0));
}

#[test]
fn session_applies_each_group_then_closes() {
    let mut bytes = bytes_of(&Element::Widget(two_widget_root()));
    let mut small_root = two_widget_root();
    small_root.children.truncate(1);
    bytes.extend(bytes_of(&Element::Widget(small_root)));
    let mut root = Widget::default();
    let mut reader = reader_of(bytes);
    assert_eq!(apply_group(&mut root, &mut reader), SessionStep::Applied);
    assert_eq!(root.children.len(), 2);
    assert_eq!(apply_group(&mut root, &mut reader), SessionStep::Applied);
    assert_eq!(root.children.len(), 1);
    assert_eq!(apply_group(&mut root, &mut reader), SessionStep::Closed);
    assert_eq!(root.children.len(), 1);
}

#[test]
fn session_stray_token_fails() {
    let mut root = two_widget_root();
    let mut reader = TokenReader::new(vec![Token::Value(Value::Int(3))]);
    assert_eq!(apply_group(&mut root, &mut reader), SessionStep::Failed(Error::UnexpectedToken));
    assert!(root.children.is_empty());
    let mut reader = TokenReader::new(vec![Token::Start, Token::Value(Value::Int(3))]);
    let mut root = two_widget_root();
    assert_eq!(apply_group(&mut root, &mut reader), SessionStep::Failed(Error::UnexpectedToken));
}

#[test]
fn event_batch_text() {
    let events = vec![
        (1001, Event::Down),
        (7, Event::Motion(3, -4)),
        (2, Event::Key(65)),
        (3, Event::Text('a')),
        (4, Event::Up),
        (5, Event::KeyboardFocusLost),
        (6, Event::Text('\'')),
    ];
    let text = String::from_utf8(encode_events(&events)).unwrap();
    assert_eq!(
        text,
        "(\n (1001 Down)\n (7 Motion(3, -4))\n (2 Key(65))\n (3 Text('a'))\n (4 Up)\n (5 KeyboardFocusLost)\n (6 Text('\\'')))\n"
    );
    let mut expected = String::from("(");
    for (b, e) in events.iter() {
        expected.push_str(&format!("\n ({} {:?})", b, e));
    }
    expected.push_str(")\n");
    assert_eq!(text, expected);
    assert_eq!(encode_events(&Vec::new()), b"()\n".to_vec());
}

#[test]
fn depth_tracks_top_level_groups() {
    let tokens = [Token::Start, Token::Value(Value::Int(1)), Token::Start, Token::End, Token::End];
    let mut depth = 0;
    let mut depths = Vec::new();
    for t in tokens.iter() {
        depth = next_depth(depth, t);
        depths.push(depth);
    }
    assert_eq!(depths, vec![1, 1, 2, 1, 0]);
    assert_eq!(next_depth(0, &Token::End), 0);
}

#[test]
fn second_patch_changes_no_field() {
    let target = bytes_of(&sample());
    let mut root = two_widget_root();
    root.border_colour = v3(0.2, 0.4, 0.6);
    patched(&mut root, target.clone()).unwrap();
    let once = format!("{:?}", root);
    patched(&mut root, target).unwrap();
    assert_eq!(format!("{:?}", root), once);
    assert_eq!(root.border_colour, v3(0.2, 0.4, 0.6));
}

#[test]
fn patched_default_equals_the_written_tree() {
    let mut root = Widget::default();
    patched(&mut root, bytes_of(&sample())).unwrap();
    assert_eq!(format!("{:?}", Element::Widget(root)), format!("{:?}", sample()));
}
