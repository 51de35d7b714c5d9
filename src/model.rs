use vstd::prelude::*;
use crate::reader::{
    after_next, lemma_cons, lemma_skip_end, lemma_skip_len_bound, next_token, skip_len, skip_rest,
    TokenReader,
};
use crate::value::{Error, Tag, TokenView, Value, ValueView};
use crate::writer::Writer;

verus! {

pub const SHAPE: Tag = 0x53484150;

pub const PATHS: Tag = 0x50544853;

pub const COLOUR: Tag = 0x434f4c52;

pub const POINTS: Tag = 0x504e5453;

/// A point of a path; coordinates and bias are IEEE-754 bit patterns.
#[derive(Clone, Copy, Debug, PartialEq)]
pub struct Point {
    pub location: (u64, u64),
    pub curve_bias: u64,
}

#[derive(Debug, PartialEq)]
pub struct Path {
    pub colour: (u64, u64, u64),
    pub points: Vec<Point>,
}

/// A shape: a list of filled, coloured paths.
#[derive(Debug, PartialEq)]
pub struct Model {
    pub paths: Vec<Path>,
}

pub struct PathView {
    pub colour: (u64, u64, u64),
    pub points: Seq<Point>,
}

pub struct ModelView {
    pub paths: Seq<PathView>,
}

impl View for Path {
    type V = PathView;

    open spec fn view(&self) -> PathView {
        PathView { colour: self.colour, points: self.points@ }
    }
}

impl View for Model {
    type V = ModelView;

    open spec fn view(&self) -> ModelView {
        ModelView { paths: self.paths@.map_values(|p: Path| p@) }
    }
}

pub open spec fn tv(v: ValueView<u64>) -> TokenView<u64> {
    TokenView::Value(v)
}

pub open spec fn locations(ps: Seq<Point>) -> Seq<(u64, u64)> {
    ps.map_values(|q: Point| q.location)
}

pub open spec fn biases(ps: Seq<Point>) -> Seq<u64> {
    ps.map_values(|q: Point| q.curve_bias)
}

/// A path as written: a colour group and a points group inside one group.
pub open spec fn path_tokens(p: PathView) -> Seq<TokenView<u64>> {
    seq![
        TokenView::Start,
        TokenView::Start,
        tv(ValueView::Tag(COLOUR)),
        tv(ValueView::Vec3(p.colour)),
        TokenView::End,
        TokenView::Start,
        tv(ValueView::Tag(POINTS)),
        tv(ValueView::Vec2Array(locations(p.points))),
        tv(ValueView::DoubleArray(biases(p.points))),
        TokenView::End,
        TokenView::End,
    ]
}

pub open spec fn paths_tokens(ps: Seq<PathView>) -> Seq<TokenView<u64>>
    decreases ps.len(),
{
    if ps.len() == 0 {
        seq![]
    } else {
        paths_tokens(ps.drop_last()) + path_tokens(ps.last())
    }
}

/// A shape as written: its tag, then a group holding the path count and the paths.
pub open spec fn model_tokens(m: ModelView) -> Seq<TokenView<u64>> {
    seq![
        TokenView::Start,
        tv(ValueView::Tag(SHAPE)),
        TokenView::Start,
        tv(ValueView::Tag(PATHS)),
        tv(ValueView::Int(m.paths.len() as i32)),
    ] + paths_tokens(m.paths) + seq![TokenView::End, TokenView::End]
}

// ---------------------------------------------------------------------------
// Reading, as functions from the tokens to the value read and the tokens left.

pub open spec fn read_colour_spec(ts: Seq<TokenView<u64>>) -> Result<((u64, u64, u64), Seq<TokenView<u64>>), Error> {
    match next_token(ts) {
        TokenView::Value(ValueView::Vec3(c)) => match skip_rest(after_next(ts)) {
            Ok(r) => Ok((c, r)),
            Err(e) => Err(e),
        },
        _ => Err(Error::UnexpectedToken),
    }
}

/// Locations and biases paired up, as far as both go.
pub open spec fn zip_points(ls: Seq<(u64, u64)>, bs: Seq<u64>) -> Seq<Point> {
    Seq::new(
        if ls.len() < bs.len() {
            ls.len()
        } else {
            bs.len()
        },
        |i: int| Point { location: ls[i], curve_bias: bs[i] },
    )
}

pub open spec fn read_points_spec(ts: Seq<TokenView<u64>>) -> Result<(Seq<Point>, Seq<TokenView<u64>>), Error> {
    match next_token(ts) {
        TokenView::Value(ValueView::Vec2Array(ls)) => {
            let t1 = after_next(ts);
            match next_token(t1) {
                TokenView::Value(ValueView::DoubleArray(bs)) => match skip_rest(after_next(t1)) {
                    Ok(r) => Ok((zip_points(ls, bs), r)),
                    Err(e) => Err(e),
                },
                _ => Err(Error::UnexpectedToken),
            }
        },
        _ => Err(Error::UnexpectedToken),
    }
}

/// The groups of a path, from the colour and points seen so far; unknown
/// groups are skipped.
pub open spec fn path_groups(
    ts: Seq<TokenView<u64>>,
    colour: Option<(u64, u64, u64)>,
    points: Option<Seq<Point>>,
) -> Result<(Option<(u64, u64, u64)>, Option<Seq<Point>>, Seq<TokenView<u64>>), Error>
    decreases ts.len(),
{
    match next_token(ts) {
        TokenView::Start => {
            let t1 = after_next(ts);
            match next_token(t1) {
                TokenView::Value(ValueView::Tag(t)) => {
                    let t2 = after_next(t1);
                    if t == COLOUR {
                        match read_colour_spec(t2) {
                            Ok((c, r)) => if r.len() < ts.len() {
                                path_groups(r, Some(c), points)
                            } else {
                                Err(Error::InvalidToken)
                            },
                            Err(e) => Err(e),
                        }
                    } else if t == POINTS {
                        match read_points_spec(t2) {
                            Ok((p, r)) => if r.len() < ts.len() {
                                path_groups(r, colour, Some(p))
                            } else {
                                Err(Error::InvalidToken)
                            },
                            Err(e) => Err(e),
                        }
                    } else {
                        match skip_rest(t2) {
                            Ok(r) => if r.len() < ts.len() {
                                path_groups(r, colour, points)
                            } else {
                                Err(Error::InvalidToken)
                            },
                            Err(e) => Err(e),
                        }
                    }
                },
                _ => Err(Error::UnexpectedToken),
            }
        },
        TokenView::End => Ok((colour, points, after_next(ts))),
        TokenView::EndOfFile => Ok((colour, points, after_next(ts))),
        _ => Err(Error::UnexpectedToken),
    }
}

/// A path group; both its colour and its points must be present.
pub open spec fn read_path_spec(ts: Seq<TokenView<u64>>) -> Result<(PathView, Seq<TokenView<u64>>), Error> {
    match next_token(ts) {
        TokenView::Start => match path_groups(after_next(ts), None, None) {
            Ok((Some(c), Some(p), r)) => Ok((PathView { colour: c, points: p }, r)),
            Ok(_) => Err(Error::UnexpectedToken),
            Err(e) => Err(e),
        },
        _ => Err(Error::UnexpectedToken),
    }
}

/// `n` path groups, one after the other.
pub open spec fn read_n_paths(ts: Seq<TokenView<u64>>, n: nat) -> Result<(Seq<PathView>, Seq<TokenView<u64>>), Error>
    decreases n,
{
    if n == 0 {
        Ok((seq![], ts))
    } else {
        match read_n_paths(ts, (n - 1) as nat) {
            Ok((ps, r)) => match read_path_spec(r) {
                Ok((p, r2)) => Ok((ps.push(p), r2)),
                Err(e) => Err(e),
            },
            Err(e) => Err(e),
        }
    }
}

/// The content of a paths group: the count, then that many paths.
pub open spec fn read_paths_spec(ts: Seq<TokenView<u64>>) -> Result<(Seq<PathView>, Seq<TokenView<u64>>), Error> {
    match next_token(ts) {
        TokenView::Value(ValueView::Int(c)) => match read_n_paths(
            after_next(ts),
            if c < 0 {
                0
            } else {
                c as nat
            },
        ) {
            Ok((ps, r)) => match skip_rest(r) {
                Ok(r2) => Ok((ps, r2)),
                Err(e) => Err(e),
            },
            Err(e) => Err(e),
        },
        _ => Err(Error::UnexpectedToken),
    }
}

/// The groups of a shape, from the paths seen so far; unknown groups are skipped.
pub open spec fn shape_groups(ts: Seq<TokenView<u64>>, paths: Option<Seq<PathView>>) -> Result<(Option<Seq<PathView>>, Seq<TokenView<u64>>), Error>
    decreases ts.len(),
{
    match next_token(ts) {
        TokenView::Start => {
            let t1 = after_next(ts);
            match next_token(t1) {
                TokenView::Value(ValueView::Tag(t)) => {
                    let t2 = after_next(t1);
                    if t == PATHS {
                        match read_paths_spec(t2) {
                            Ok((ps, r)) => if r.len() < ts.len() {
                                shape_groups(r, Some(ps))
                            } else {
                                Err(Error::InvalidToken)
                            },
                            Err(e) => Err(e),
                        }
                    } else {
                        match skip_rest(t2) {
                            Ok(r) => if r.len() < ts.len() {
                                shape_groups(r, paths)
                            } else {
                                Err(Error::InvalidToken)
                            },
                            Err(e) => Err(e),
                        }
                    }
                },
                _ => Err(Error::UnexpectedToken),
            }
        },
        TokenView::End => Ok((paths, after_next(ts))),
        TokenView::EndOfFile => Ok((paths, after_next(ts))),
        _ => Err(Error::UnexpectedToken),
    }
}

/// A shape group whose start has been read: its tag, then its groups, of
/// which the paths group must be one.
pub open spec fn read_started_spec(ts: Seq<TokenView<u64>>) -> Result<(ModelView, Seq<TokenView<u64>>), Error> {
    match next_token(ts) {
        TokenView::Value(ValueView::Tag(t)) => if t != SHAPE {
            Err(Error::UnknownTag)
        } else {
            match shape_groups(after_next(ts), None) {
                Ok((Some(ps), r)) => Ok((ModelView { paths: ps }, r)),
                Ok(_) => Err(Error::UnexpectedToken),
                Err(e) => Err(e),
            }
        },
        _ => Err(Error::UnexpectedToken),
    }
}

pub open spec fn read_model_spec(ts: Seq<TokenView<u64>>) -> Result<(ModelView, Seq<TokenView<u64>>), Error> {
    match next_token(ts) {
        TokenView::Start => read_started_spec(after_next(ts)),
        _ => Err(Error::UnexpectedToken),
    }
}

pub open spec fn points_view(o: Option<Vec<Point>>) -> Option<Seq<Point>> {
    match o {
        Some(v) => Some(v@),
        None => None,
    }
}

pub open spec fn paths_view(ps: Seq<Path>) -> Seq<PathView> {
    ps.map_values(|p: Path| p@)
}

fn read_colour(reader: &mut TokenReader) -> (res: Result<(u64, u64, u64), Error>)
    ensures
        final(reader).rest().len() <= old(reader).rest().len(),
        match read_colour_spec(old(reader).rest()) {
            Ok((c, r)) => res == Ok::<(u64, u64, u64), Error>(c) && final(reader).rest() == r && r.len()
                < old(reader).rest().len(),
            Err(e) => res == Err::<(u64, u64, u64), Error>(e),
        },
{
    let c = match reader.expect_vec3() {
        Ok(c) => c,
        Err(e) => return Err(e),
    };
    let ghost t1 = reader.rest();
    match reader.skip_to_end() {
        Ok(()) => {},
        Err(e) => return Err(e),
    }
    proof {
        lemma_skip_len_bound(t1, 0);
    }
    Ok(c)
}

fn read_points(reader: &mut TokenReader) -> (res: Result<Vec<Point>, Error>)
    ensures
        final(reader).rest().len() <= old(reader).rest().len(),
        match read_points_spec(old(reader).rest()) {
            Ok((p, r)) => res matches Ok(v) && v@ == p && final(reader).rest() == r && r.len()
                < old(reader).rest().len(),
            Err(e) => res matches Err(e2) && e2 == e,
        },
{
    let ls = match reader.expect_vec2_array() {
        Ok(v) => v,
        Err(e) => return Err(e),
    };
    let bs = match reader.expect_double_array() {
        Ok(v) => v,
        Err(e) => return Err(e),
    };
    let ghost t2 = reader.rest();
    match reader.skip_to_end() {
        Ok(()) => {},
        Err(e) => return Err(e),
    }
    proof {
        lemma_skip_len_bound(t2, 0);
    }
    let n = if ls.len() < bs.len() {
        ls.len()
    } else {
        bs.len()
    };
    let mut out: Vec<Point> = Vec::new();
    let mut i: usize = 0;
    while i < n
        invariant
            i <= n,
            n <= ls@.len(),
            n <= bs@.len(),
            n == (if ls@.len() < bs@.len() {
                ls@.len()
            } else {
                bs@.len()
            }),
            out@ == zip_points(ls@, bs@).take(i as int),
        decreases n - i,
    {
        out.push(Point { location: ls[i], curve_bias: bs[i] });
        i = i + 1;
        assert(out@ =~= zip_points(ls@, bs@).take(i as int));
    }
    assert(out@ =~= zip_points(ls@, bs@));
    Ok(out)
}

impl Path {
    pub fn write<W: Writer>(&self, writer: &mut W)
        requires
            old(writer).inv(),
        ensures
            final(writer).inv(),
        final(writer).base() == old(writer).base(),
            final(writer).base() == old(writer).base(),
            final(writer).written() == old(writer).written() + path_tokens(self@),
    {
        let mut ls: Vec<(u64, u64)> = Vec::new();
        let mut bs: Vec<u64> = Vec::new();
        let mut i: usize = 0;
        while i < self.points.len()
            invariant
                i <= self.points@.len(),
                ls@ == locations(self.points@.take(i as int)),
                bs@ == biases(self.points@.take(i as int)),
            decreases self.points@.len() - i,
        {
            ls.push(self.points[i].location);
            bs.push(self.points[i].curve_bias);
            i = i + 1;
            assert(ls@ =~= locations(self.points@.take(i as int)));
            assert(bs@ =~= biases(self.points@.take(i as int)));
        }
        assert(self.points@.take(i as int) =~= self.points@);
        let ghost w0 = writer.written();
        writer.write_start();
        writer.write_start();
        writer.write_value(&Value::Tag(COLOUR));
        writer.write_value(&Value::Vec3(self.colour));
        writer.write_end();
        writer.write_start();
        writer.write_value(&Value::Tag(POINTS));
        writer.write_value(&Value::Vec2Array(ls));
        writer.write_value(&Value::DoubleArray(bs));
        writer.write_end();
        writer.write_end();
        assert(writer.written() =~= w0 + path_tokens(self@));
    }

    /// Reads a path group: its colour and points groups, in any order, other
    /// groups skipped.
    pub fn read(reader: &mut TokenReader) -> (res: Result<Path, Error>)
        ensures
            final(reader).rest().len() <= old(reader).rest().len(),
            match read_path_spec(old(reader).rest()) {
                Ok((p, r)) => res matches Ok(v) && v@ == p && final(reader).rest() == r && r.len()
                    < old(reader).rest().len(),
                Err(e) => res matches Err(e2) && e2 == e,
            },
    {
        match reader.expect_start() {
            Ok(()) => {},
            Err(e) => return Err(e),
        }
        let ghost ts0 = reader.rest();
        let mut colour: Option<(u64, u64, u64)> = None;
        let mut points: Option<Vec<Point>> = None;
        loop
            invariant
                ts0.len() < old(reader).rest().len(),
                reader.rest().len() <= ts0.len(),
                ts0 == after_next(old(reader).rest()),
                next_token(old(reader).rest()) == TokenView::<u64>::Start,
                path_groups(ts0, None, None) == path_groups(
                    reader.rest(),
                    colour,
                    points_view(points),
                ),
            decreases reader.rest().len(),
        {
            let ghost ts = reader.rest();
            let more = match reader.expect_start_or_end() {
                Ok(b) => b,
                Err(e) => return Err(e),
            };
            if !more {
                return match (colour, points) {
                    (Some(c), Some(p)) => Ok(Path { colour: c, points: p }),
                    _ => Err(Error::UnexpectedToken),
                };
            }
            let t = match reader.expect_tag() {
                Ok(t) => t,
                Err(e) => return Err(e),
            };
            if t == COLOUR {
                match read_colour(reader) {
                    Ok(c) => {
                        colour = Some(c);
                    },
                    Err(e) => return Err(e),
                }
            } else if t == POINTS {
                match read_points(reader) {
                    Ok(p) => {
                        points = Some(p);
                    },
                    Err(e) => return Err(e),
                }
            } else {
                let ghost t2 = reader.rest();
                match reader.skip_to_end() {
                    Ok(()) => {},
                    Err(e) => return Err(e),
                }
                proof {
                    lemma_skip_len_bound(t2, 0);
                }
            }
        }
    }
}

/// Reads the content of a paths group: the count, then that many paths.
fn read_paths(reader: &mut TokenReader) -> (res: Result<Vec<Path>, Error>)
    ensures
        final(reader).rest().len() <= old(reader).rest().len(),
        match read_paths_spec(old(reader).rest()) {
            Ok((ps, r)) => res matches Ok(v) && paths_view(v@) == ps && final(reader).rest() == r
                && r.len() < old(reader).rest().len(),
            Err(e) => res matches Err(e2) && e2 == e,
        },
{
    let count = match reader.expect_int() {
        Ok(c) => c,
        Err(e) => return Err(e),
    };
    let ghost t1 = reader.rest();
    let mut paths: Vec<Path> = Vec::new();
    let mut i: i32 = 0;
    assert(paths_view(paths@) =~= seq![]);
    while i < count
        invariant
            0 <= i,
            count < 0 || i <= count,
            count < 0 ==> i == 0,
            t1.len() < old(reader).rest().len(),
            reader.rest().len() <= t1.len(),
            t1 == after_next(old(reader).rest()),
            next_token(old(reader).rest()) == TokenView::Value(ValueView::<u64>::Int(count)),
            read_n_paths(t1, i as nat) == Ok::<(Seq<PathView>, Seq<TokenView<u64>>), Error>(
                (paths_view(paths@), reader.rest()),
            ),
        decreases count - i,
    {
        let ghost ps = paths_view(paths@);
        match Path::read(reader) {
            Ok(p) => {
                paths.push(p);
                assert(paths_view(paths@) =~= ps.push(p@));
            },
            Err(e) => {
                proof {
                    lemma_read_n_paths_err(t1, (i + 1) as nat, count as nat);
                }
                return Err(e);
            },
        }
        i = i + 1;
    }
    let ghost t3 = reader.rest();
    assert(read_n_paths(t1, if count < 0 {
        0
    } else {
        count as nat
    }) == Ok::<(Seq<PathView>, Seq<TokenView<u64>>), Error>((paths_view(paths@), t3)));
    match reader.skip_to_end() {
        Ok(()) => {},
        Err(e) => return Err(e),
    }
    proof {
        lemma_skip_len_bound(t3, 0);
    }
    Ok(paths)
}

proof fn lemma_read_n_paths_err(ts: Seq<TokenView<u64>>, m: nat, n: nat)
    requires
        m <= n,
        read_n_paths(ts, m) is Err,
    ensures
        read_n_paths(ts, n) == read_n_paths(ts, m),
    decreases n - m,
{
    if m < n {
        lemma_read_n_paths_err(ts, m, (n - 1) as nat);
    }
}

impl Model {
    pub fn write<W: Writer>(&self, writer: &mut W)
        requires
            old(writer).inv(),
        ensures
            final(writer).inv(),
        final(writer).base() == old(writer).base(),
            final(writer).base() == old(writer).base(),
            final(writer).written() == old(writer).written() + model_tokens(self@),
    {
        let ghost w0 = writer.written();
        writer.write_start();
        writer.write_value(&Value::Tag(SHAPE));
        writer.write_start();
        writer.write_value(&Value::Tag(PATHS));
        writer.write_value(&Value::Int(self.paths.len() as i32));
        let ghost w1 = writer.written();
        let mut i: usize = 0;
        while i < self.paths.len()
            invariant
                writer.inv(),
            writer.base() == old(writer).base(),
                writer.base() == old(writer).base(),
                i <= self.paths@.len(),
                writer.written() == w1 + paths_tokens(paths_view(self.paths@.take(i as int))),
            decreases self.paths@.len() - i,
        {
            self.paths[i].write(writer);
            assert(paths_view(self.paths@.take(i + 1)).drop_last() =~= paths_view(
                self.paths@.take(i as int),
            ));
            i = i + 1;
        }
        assert(self.paths@.take(i as int) =~= self.paths@);
        writer.write_end();
        writer.write_end();
        assert(writer.written() =~= w0 + model_tokens(self@));
    }

    /// Reads a shape group, its start included.
    pub fn read(reader: &mut TokenReader) -> (res: Result<Model, Error>)
        ensures
            final(reader).rest().len() <= old(reader).rest().len(),
            match read_model_spec(old(reader).rest()) {
                Ok((m, r)) => res matches Ok(v) && v@ == m && final(reader).rest() == r,
                Err(e) => res matches Err(e2) && e2 == e,
            },
    {
        match reader.expect_start() {
            Ok(()) => {},
            Err(e) => return Err(e),
        }
        Model::read_started(reader)
    }

    /// Reads a shape group whose start has been read.
    pub fn read_started(reader: &mut TokenReader) -> (res: Result<Model, Error>)
        ensures
            final(reader).rest().len() <= old(reader).rest().len(),
            match read_started_spec(old(reader).rest()) {
                Ok((m, r)) => res matches Ok(v) && v@ == m && final(reader).rest() == r && r.len()
                    < old(reader).rest().len(),
                Err(e) => res matches Err(e2) && e2 == e,
            },
    {
        let t = match reader.expect_tag() {
            Ok(t) => t,
            Err(e) => return Err(e),
        };
        if t != SHAPE {
            return Err(Error::UnknownTag);
        }
        let ghost ts0 = reader.rest();
        let mut paths: Option<Vec<Path>> = None;
        loop
            invariant
                ts0.len() < old(reader).rest().len(),
                reader.rest().len() <= ts0.len(),
                ts0 == after_next(old(reader).rest()),
                next_token(old(reader).rest()) == TokenView::Value(ValueView::<u64>::Tag(SHAPE)),
                shape_groups(ts0, None) == shape_groups(reader.rest(), opt_paths_view(paths)),
            decreases reader.rest().len(),
        {
            let more = match reader.expect_start_or_end() {
                Ok(b) => b,
                Err(e) => return Err(e),
            };
            if !more {
                return match paths {
                    Some(ps) => {
                        let m = Model { paths: ps };
                        assert(m@.paths =~= paths_view(m.paths@));
                        Ok(m)
                    },
                    None => Err(Error::UnexpectedToken),
                };
            }
            let t = match reader.expect_tag() {
                Ok(t) => t,
                Err(e) => return Err(e),
            };
            if t == PATHS {
                match read_paths(reader) {
                    Ok(ps) => {
                        paths = Some(ps);
                    },
                    Err(e) => return Err(e),
                }
            } else {
                let ghost t2 = reader.rest();
                match reader.skip_to_end() {
                    Ok(()) => {},
                    Err(e) => return Err(e),
                }
                proof {
                    lemma_skip_len_bound(t2, 0);
                }
            }
        }
    }
}

pub open spec fn opt_paths_view(o: Option<Vec<Path>>) -> Option<Seq<PathView>> {
    match o {
        Some(v) => Some(paths_view(v@)),
        None => None,
    }
}

// ---------------------------------------------------------------------------
// Reading back what was written.

type TV = TokenView<u64>;

proof fn lemma_zip_points(ps: Seq<Point>)
    ensures
        zip_points(locations(ps), biases(ps)) == ps,
{
    assert(zip_points(locations(ps), biases(ps)) =~= ps);
}

/// A path group as written reads back as the same path.
pub proof fn lemma_path_round_trip(p: PathView, r: Seq<TV>)
    ensures
        read_path_spec(path_tokens(p) + r) == Ok::<(PathView, Seq<TV>), Error>((p, r)),
{
    let tc = tv(ValueView::Tag(COLOUR));
    let c = tv(ValueView::Vec3(p.colour));
    let tp = tv(ValueView::Tag(POINTS));
    let l = tv(ValueView::Vec2Array(locations(p.points)));
    let b = tv(ValueView::DoubleArray(biases(p.points)));
    let e = TokenView::<u64>::End;
    let st = TokenView::<u64>::Start;
    let r9 = seq![e] + r;
    let r8 = seq![e] + r9;
    let r7 = seq![b] + r8;
    let r6 = seq![l] + r7;
    let r5 = seq![tp] + r6;
    let r4 = seq![st] + r5;
    let r3 = seq![e] + r4;
    let r2 = seq![c] + r3;
    let r1 = seq![tc] + r2;
    let r0 = seq![st] + r1;
    let all = seq![st] + r0;
    assert(path_tokens(p) + r =~= all);
    lemma_cons(st, r0);
    lemma_cons(st, r1);
    lemma_cons(tc, r2);
    lemma_cons(c, r3);
    lemma_cons(e, r4);
    lemma_cons(st, r5);
    lemma_cons(tp, r6);
    lemma_cons(l, r7);
    lemma_cons(b, r8);
    lemma_cons(e, r9);
    lemma_cons(e, r);
    lemma_skip_end(r4);
    lemma_skip_end(r9);
    lemma_zip_points(p.points);
    assert(read_colour_spec(r2) == Ok::<((u64, u64, u64), Seq<TV>), Error>((p.colour, r4)));
    assert(read_points_spec(r6) == Ok::<(Seq<Point>, Seq<TV>), Error>((p.points, r9)));
    assert(path_groups(r9, Some(p.colour), Some(p.points)) == Ok::<
        (Option<(u64, u64, u64)>, Option<Seq<Point>>, Seq<TV>),
        Error,
    >((Some(p.colour), Some(p.points), r)));
    assert(path_groups(r4, Some(p.colour), None) == path_groups(r9, Some(p.colour), Some(p.points)));
    assert(path_groups(r0, None, None) == path_groups(r4, Some(p.colour), None));
}

proof fn lemma_paths_round_trip(ps: Seq<PathView>, rest: Seq<TV>)
    ensures
        read_n_paths(paths_tokens(ps) + rest, ps.len()) == Ok::<(Seq<PathView>, Seq<TV>), Error>(
            (ps, rest),
        ),
    decreases ps.len(),
{
    if ps.len() > 0 {
        let init = ps.drop_last();
        let last = ps.last();
        assert(paths_tokens(ps) + rest =~= paths_tokens(init) + (path_tokens(last) + rest));
        lemma_paths_round_trip(init, path_tokens(last) + rest);
        lemma_path_round_trip(last, rest);
        assert(init.push(last) =~= ps);
        assert(read_n_paths(paths_tokens(ps) + rest, ps.len()) == read_n_paths(
            paths_tokens(init) + (path_tokens(last) + rest),
            (ps.len() - 1 + 1) as nat,
        ));
    } else {
        assert(ps =~= seq![]);
        assert(paths_tokens(ps) + rest =~= rest);
    }
}

/// Fewer paths than an `Int` can count.
pub open spec fn model_fits(m: ModelView) -> bool {
    m.paths.len() <= i32::MAX
}

/// A shape as written, read after its start, gives back the same shape.
pub proof fn lemma_model_round_trip(m: ModelView, r: Seq<TV>)
    requires
        model_fits(m),
    ensures
        read_started_spec(model_tokens(m).skip(1) + r) == Ok::<(ModelView, Seq<TV>), Error>((m, r)),
{
    let n = m.paths.len() as i32;
    let e = TokenView::<u64>::End;
    let st = TokenView::<u64>::Start;
    let ts = tv(ValueView::Tag(SHAPE));
    let tp = tv(ValueView::Tag(PATHS));
    let ti = tv(ValueView::Int(n));
    let r5 = seq![e] + r;
    let r4 = seq![e] + r5;
    let r3 = paths_tokens(m.paths) + r4;
    let r2 = seq![ti] + r3;
    let r1 = seq![tp] + r2;
    let r0 = seq![st] + r1;
    let all = seq![ts] + r0;
    assert(model_tokens(m).skip(1) + r =~= all);
    lemma_cons(ts, r0);
    lemma_cons(st, r1);
    lemma_cons(tp, r2);
    lemma_cons(ti, r3);
    lemma_cons(e, r);
    lemma_paths_round_trip(m.paths, r4);
    lemma_skip_end(r5);
    assert(read_paths_spec(r2) == Ok::<(Seq<PathView>, Seq<TV>), Error>((m.paths, r5)));
    assert(shape_groups(r5, Some(m.paths)) == Ok::<(Option<Seq<PathView>>, Seq<TV>), Error>(
        (Some(m.paths), r),
    ));
    assert(shape_groups(r0, None) == shape_groups(r5, Some(m.paths)));
}

} // verus!
