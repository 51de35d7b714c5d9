use vstd::prelude::*;
use crate::value::{Error, Tag, Token, TokenView, Value, ValueView};

verus! {

/// The token that `read_next` hands out next: `EndOfFile` once none is left.
pub open spec fn next_token(ts: Seq<TokenView<u64>>) -> TokenView<u64> {
    if ts.len() == 0 {
        TokenView::EndOfFile
    } else {
        ts[0]
    }
}

/// The tokens left after `read_next`.
pub open spec fn after_next(ts: Seq<TokenView<u64>>) -> Seq<TokenView<u64>> {
    if ts.len() == 0 {
        ts
    } else {
        ts.drop_first()
    }
}

/// How many tokens `skip_to_end` consumes at nesting `depth`: up to and
/// including the `End` that closes the open group, or up to the end of the
/// stream when no group is open.
pub open spec fn skip_len(ts: Seq<TokenView<u64>>, depth: nat) -> Result<nat, Error>
    decreases ts.len(),
{
    if ts.len() == 0 {
        if depth == 0 {
            Ok(0)
        } else {
            Err(Error::UnexpectedEndOfFile)
        }
    } else {
        match ts[0] {
            TokenView::Start => match skip_len(ts.drop_first(), depth + 1) {
                Ok(n) => Ok(n + 1),
                Err(e) => Err(e),
            },
            TokenView::End => if depth == 0 {
                Ok(1)
            } else {
                match skip_len(ts.drop_first(), (depth - 1) as nat) {
                    Ok(n) => Ok(n + 1),
                    Err(e) => Err(e),
                }
            },
            TokenView::EndOfFile => if depth == 0 {
                Ok(1)
            } else {
                Err(Error::UnexpectedEndOfFile)
            },
            TokenView::Value(_) => match skip_len(ts.drop_first(), depth) {
                Ok(n) => Ok(n + 1),
                Err(e) => Err(e),
            },
        }
    }
}

/// `ts` closes exactly the `depth` groups that are open before it, and
/// never more at any point.
pub open spec fn nests(ts: Seq<TokenView<u64>>, depth: nat) -> bool
    decreases ts.len(),
{
    if ts.len() == 0 {
        depth == 0
    } else {
        match ts[0] {
            TokenView::Start => nests(ts.drop_first(), depth + 1),
            TokenView::End => depth > 0 && nests(ts.drop_first(), (depth - 1) as nat),
            TokenView::EndOfFile => false,
            TokenView::Value(_) => nests(ts.drop_first(), depth),
        }
    }
}

/// A balanced sequence of values and groups: the content of one group.
pub open spec fn balanced(ts: Seq<TokenView<u64>>) -> bool {
    nests(ts, 0)
}

pub open spec fn plus(c: nat, r: Result<nat, Error>) -> Result<nat, Error> {
    match r {
        Ok(m) => Ok(c + m),
        Err(e) => Err(e),
    }
}

pub open spec fn views(ts: Seq<Token<u64>>) -> Seq<TokenView<u64>> {
    ts.map_values(|t: Token<u64>| t@)
}

proof fn lemma_skip_nested(ts: Seq<TokenView<u64>>, depth: nat, r: Seq<TokenView<u64>>)
    requires
        nests(ts, depth),
    ensures
        skip_len(ts + seq![TokenView::End] + r, depth) == Ok::<nat, Error>(ts.len() + 1),
    decreases ts.len(),
{
    let s = ts + seq![TokenView::End] + r;
    if ts.len() > 0 {
        assert(s[0] == ts[0]);
        assert(s.drop_first() =~= ts.drop_first() + seq![TokenView::End] + r);
        match ts[0] {
            TokenView::Start => lemma_skip_nested(ts.drop_first(), depth + 1, r),
            TokenView::End => lemma_skip_nested(ts.drop_first(), (depth - 1) as nat, r),
            TokenView::EndOfFile => {},
            TokenView::Value(_) => lemma_skip_nested(ts.drop_first(), depth, r),
        }
    } else {
        assert(s[0] == TokenView::<u64>::End);
    }
}

/// Skipping from just inside a group consumes that group's content and its
/// `End`: the next token read is the one that follows the group.
pub proof fn lemma_skip_to_end(inner: Seq<TokenView<u64>>, r: Seq<TokenView<u64>>)
    requires
        balanced(inner),
    ensures
        skip_len(inner + seq![TokenView::End] + r, 0) == Ok::<nat, Error>(inner.len() + 1),
        (inner + seq![TokenView::End] + r).skip((inner.len() + 1) as int) == r,
{
    lemma_skip_nested(inner, 0, r);
    assert((inner + seq![TokenView::End] + r).skip((inner.len() + 1) as int) =~= r);
}


/// The tokens left once `skip_to_end` has run.
pub open spec fn skip_rest(ts: Seq<TokenView<u64>>) -> Result<Seq<TokenView<u64>>, Error> {
    match skip_len(ts, 0) {
        Ok(n) => Ok(ts.skip(n as int)),
        Err(e) => Err(e),
    }
}

pub proof fn lemma_skip_len_bound(ts: Seq<TokenView<u64>>, depth: nat)
    ensures
        skip_len(ts, depth) matches Ok(n) ==> n <= ts.len(),
    decreases ts.len(),
{
    if ts.len() > 0 {
        match ts[0] {
            TokenView::Start => lemma_skip_len_bound(ts.drop_first(), depth + 1),
            TokenView::End => if depth > 0 {
                lemma_skip_len_bound(ts.drop_first(), (depth - 1) as nat)
            },
            TokenView::EndOfFile => {},
            TokenView::Value(_) => lemma_skip_len_bound(ts.drop_first(), depth),
        }
    }
}


pub proof fn lemma_cons(t: TokenView<u64>, x: Seq<TokenView<u64>>)
    ensures
        next_token(seq![t] + x) == t,
        after_next(seq![t] + x) == x,
        (seq![t] + x).len() == x.len() + 1,
{
    assert((seq![t] + x)[0] == t);
    assert((seq![t] + x).drop_first() =~= x);
}

/// Skipping from just before the `End` of the open group consumes that `End`.
pub proof fn lemma_skip_end(r: Seq<TokenView<u64>>)
    ensures
        skip_rest(seq![TokenView::End] + r) == Ok::<Seq<TokenView<u64>>, Error>(r),
{
    let s = seq![TokenView::End] + r;
    assert(s[0] == TokenView::<u64>::End);
    assert(s.skip(1) =~= r);
}

/// A source of tokens, from a sequence decoded beforehand.
pub struct TokenReader {
    /// The tokens not read yet, the next one last.
    pub stack: Vec<Token<u64>>,
}

impl TokenReader {
    /// The tokens not read yet, in order.
    pub open spec fn rest(&self) -> Seq<TokenView<u64>> {
        Seq::new(self.stack@.len(), |i: int| self.stack@[self.stack@.len() - 1 - i]@)
    }

    pub fn new(tokens: Vec<Token<u64>>) -> (r: TokenReader)
        ensures
            r.rest() == views(tokens@),
    {
        let mut tokens = tokens;
        let ghost all = tokens@;
        let mut stack: Vec<Token<u64>> = Vec::new();
        while tokens.len() > 0
            invariant
                stack@.len() + tokens@.len() == all.len(),
                tokens@ == all.take(tokens@.len() as int),
                forall|i: int|
                    0 <= i < stack@.len() ==> #[trigger] stack@[i] == all[all.len() - 1 - i],
            decreases tokens@.len(),
        {
            let t = tokens.pop().unwrap();
            stack.push(t);
            assert(tokens@ =~= all.take(tokens@.len() as int));
        }
        let r = TokenReader { stack };
        assert(r.rest() =~= views(all));
        r
    }

    /// The next token, or `EndOfFile` when none is left.
    pub fn read_next(&mut self) -> (r: Token<u64>)
        ensures
            r@ == next_token(old(self).rest()),
            final(self).rest() == after_next(old(self).rest()),
    {
        match self.stack.pop() {
            Some(t) => {
                assert(self.rest() =~= old(self).rest().drop_first());
                t
            },
            None => Token::EndOfFile,
        }
    }

    /// Consumes the rest of the open group, its nested groups included, and
    /// the `End` that closes it; with no group open, the rest of the stream.
    pub fn skip_to_end(&mut self) -> (r: Result<(), Error>)
        ensures
            match skip_len(old(self).rest(), 0) {
                Ok(n) => r == Ok::<(), Error>(()) && final(self).rest() == old(self).rest().skip(n as int),
                Err(e) => r == Err::<(), Error>(e),
            },
            match skip_rest(old(self).rest()) {
                Ok(rest) => r is Ok && final(self).rest() == rest,
                Err(e) => r == Err::<(), Error>(e),
            },
            final(self).rest().len() <= old(self).rest().len(),
    {
        let mut depth: usize = 0;
        let ghost start = self.rest();
        let ghost mut consumed: nat = 0;
        let total = self.stack.len();
        loop
            invariant
                consumed + self.rest().len() == start.len(),
                start.len() == old(self).stack@.len(),
                start == old(self).rest(),
                old(self).stack@.len() == total,
                self.rest() == start.skip(consumed as int),
                skip_len(start, 0) == plus(consumed, skip_len(self.rest(), depth as nat)),
                depth <= consumed,
            decreases self.rest().len(),
        {
            let ghost before = self.rest();
            if self.stack.len() == 0 {
                if depth == 0 {
                    return Ok(());
                }
                return Err(Error::UnexpectedEndOfFile);
            }
            let t = self.read_next();
            proof {
                consumed = consumed + 1;
                assert(self.rest() =~= start.skip(consumed as int));
            }
            match t {
                Token::Value(_) => {},
                Token::Start => {
                    depth = depth + 1;
                },
                Token::End => {
                    if depth == 0 {
                        return Ok(());
                    }
                    depth = depth - 1;
                },
                Token::EndOfFile => {
                    if depth == 0 {
                        return Ok(());
                    }
                    return Err(Error::UnexpectedEndOfFile);
                },
            }
        }
    }

    /// Reads the start of a group.
    pub fn expect_start(&mut self) -> (r: Result<(), Error>)
        ensures
            final(self).rest() == after_next(old(self).rest()),
            match next_token(old(self).rest()) {
                TokenView::Start => r == Ok::<(), Error>(()),
                _ => r == Err::<(), Error>(Error::UnexpectedToken),
            },
    {
        match self.read_next() {
            Token::Start => Ok(()),
            _ => Err(Error::UnexpectedToken),
        }
    }

    /// Reads the start of a group (`true`) or the end of one, or of the
    /// stream (`false`).
    pub fn expect_start_or_end(&mut self) -> (r: Result<bool, Error>)
        ensures
            final(self).rest() == after_next(old(self).rest()),
            match next_token(old(self).rest()) {
                TokenView::Start => r == Ok::<bool, Error>(true),
                TokenView::End => r == Ok::<bool, Error>(false),
                TokenView::EndOfFile => r == Ok::<bool, Error>(false),
                _ => r == Err::<bool, Error>(Error::UnexpectedToken),
            },
    {
        match self.read_next() {
            Token::Start => Ok(true),
            Token::End => Ok(false),
            Token::EndOfFile => Ok(false),
            _ => Err(Error::UnexpectedToken),
        }
    }

    pub fn expect_tag(&mut self) -> (r: Result<Tag, Error>)
        ensures
            final(self).rest() == after_next(old(self).rest()),
            match next_token(old(self).rest()) {
                TokenView::Value(ValueView::Tag(x)) => r == Ok::<Tag, Error>(x),
                _ => r matches Err(e) && e == Error::UnexpectedToken,
            },
    {
        match self.read_next() {
            Token::Value(Value::Tag(v)) => Ok(v),
            _ => Err(Error::UnexpectedToken),
        }
    }

    pub fn expect_tag_or_end(&mut self) -> (r: Result<Option<Tag>, Error>)
        ensures
            final(self).rest() == after_next(old(self).rest()),
            match next_token(old(self).rest()) {
                TokenView::Value(ValueView::Tag(x)) => r == Ok::<Option<Tag>, Error>(Some(x)),
                TokenView::End => r matches Ok(None),
                _ => r matches Err(e) && e == Error::UnexpectedToken,
            },
    {
        match self.read_next() {
            Token::Value(Value::Tag(v)) => Ok(Some(v)),
            Token::End => Ok(None),
            _ => Err(Error::UnexpectedToken),
        }
    }

    pub fn expect_bool(&mut self) -> (r: Result<bool, Error>)
        ensures
            final(self).rest() == after_next(old(self).rest()),
            match next_token(old(self).rest()) {
                TokenView::Value(ValueView::Bool(x)) => r == Ok::<bool, Error>(x),
                _ => r matches Err(e) && e == Error::UnexpectedToken,
            },
    {
        match self.read_next() {
            Token::Value(Value::Bool(v)) => Ok(v),
            _ => Err(Error::UnexpectedToken),
        }
    }

    pub fn expect_bool_or_end(&mut self) -> (r: Result<Option<bool>, Error>)
        ensures
            final(self).rest() == after_next(old(self).rest()),
            match next_token(old(self).rest()) {
                TokenView::Value(ValueView::Bool(x)) => r == Ok::<Option<bool>, Error>(Some(x)),
                TokenView::End => r matches Ok(None),
                _ => r matches Err(e) && e == Error::UnexpectedToken,
            },
    {
        match self.read_next() {
            Token::Value(Value::Bool(v)) => Ok(Some(v)),
            Token::End => Ok(None),
            _ => Err(Error::UnexpectedToken),
        }
    }

    pub fn expect_bool_array(&mut self) -> (r: Result<Vec<bool>, Error>)
        ensures
            final(self).rest() == after_next(old(self).rest()),
            match next_token(old(self).rest()) {
                TokenView::Value(ValueView::BoolArray(x)) => r matches Ok(v) && v@ == x,
                _ => r matches Err(e) && e == Error::UnexpectedToken,
            },
    {
        match self.read_next() {
            Token::Value(Value::BoolArray(v)) => Ok(v),
            _ => Err(Error::UnexpectedToken),
        }
    }

    pub fn expect_bool_array_or_end(&mut self) -> (r: Result<Option<Vec<bool>>, Error>)
        ensures
            final(self).rest() == after_next(old(self).rest()),
            match next_token(old(self).rest()) {
                TokenView::Value(ValueView::BoolArray(x)) => r matches Ok(Some(v)) && v@ == x,
                TokenView::End => r matches Ok(None),
                _ => r matches Err(e) && e == Error::UnexpectedToken,
            },
    {
        match self.read_next() {
            Token::Value(Value::BoolArray(v)) => Ok(Some(v)),
            Token::End => Ok(None),
            _ => Err(Error::UnexpectedToken),
        }
    }

    pub fn expect_int(&mut self) -> (r: Result<i32, Error>)
        ensures
            final(self).rest() == after_next(old(self).rest()),
            match next_token(old(self).rest()) {
                TokenView::Value(ValueView::Int(x)) => r == Ok::<i32, Error>(x),
                _ => r matches Err(e) && e == Error::UnexpectedToken,
            },
    {
        match self.read_next() {
            Token::Value(Value::Int(v)) => Ok(v),
            _ => Err(Error::UnexpectedToken),
        }
    }

    pub fn expect_int_or_end(&mut self) -> (r: Result<Option<i32>, Error>)
        ensures
            final(self).rest() == after_next(old(self).rest()),
            match next_token(old(self).rest()) {
                TokenView::Value(ValueView::Int(x)) => r == Ok::<Option<i32>, Error>(Some(x)),
                TokenView::End => r matches Ok(None),
                _ => r matches Err(e) && e == Error::UnexpectedToken,
            },
    {
        match self.read_next() {
            Token::Value(Value::Int(v)) => Ok(Some(v)),
            Token::End => Ok(None),
            _ => Err(Error::UnexpectedToken),
        }
    }

    pub fn expect_int_array(&mut self) -> (r: Result<Vec<i32>, Error>)
        ensures
            final(self).rest() == after_next(old(self).rest()),
            match next_token(old(self).rest()) {
                TokenView::Value(ValueView::IntArray(x)) => r matches Ok(v) && v@ == x,
                _ => r matches Err(e) && e == Error::UnexpectedToken,
            },
    {
        match self.read_next() {
            Token::Value(Value::IntArray(v)) => Ok(v),
            _ => Err(Error::UnexpectedToken),
        }
    }

    pub fn expect_int_array_or_end(&mut self) -> (r: Result<Option<Vec<i32>>, Error>)
        ensures
            final(self).rest() == after_next(old(self).rest()),
            match next_token(old(self).rest()) {
                TokenView::Value(ValueView::IntArray(x)) => r matches Ok(Some(v)) && v@ == x,
                TokenView::End => r matches Ok(None),
                _ => r matches Err(e) && e == Error::UnexpectedToken,
            },
    {
        match self.read_next() {
            Token::Value(Value::IntArray(v)) => Ok(Some(v)),
            Token::End => Ok(None),
            _ => Err(Error::UnexpectedToken),
        }
    }

    pub fn expect_double(&mut self) -> (r: Result<u64, Error>)
        ensures
            final(self).rest() == after_next(old(self).rest()),
            match next_token(old(self).rest()) {
                TokenView::Value(ValueView::Double(x)) => r == Ok::<u64, Error>(x),
                _ => r matches Err(e) && e == Error::UnexpectedToken,
            },
    {
        match self.read_next() {
            Token::Value(Value::Double(v)) => Ok(v),
            _ => Err(Error::UnexpectedToken),
        }
    }

    pub fn expect_double_or_end(&mut self) -> (r: Result<Option<u64>, Error>)
        ensures
            final(self).rest() == after_next(old(self).rest()),
            match next_token(old(self).rest()) {
                TokenView::Value(ValueView::Double(x)) => r == Ok::<Option<u64>, Error>(Some(x)),
                TokenView::End => r matches Ok(None),
                _ => r matches Err(e) && e == Error::UnexpectedToken,
            },
    {
        match self.read_next() {
            Token::Value(Value::Double(v)) => Ok(Some(v)),
            Token::End => Ok(None),
            _ => Err(Error::UnexpectedToken),
        }
    }

    pub fn expect_double_array(&mut self) -> (r: Result<Vec<u64>, Error>)
        ensures
            final(self).rest() == after_next(old(self).rest()),
            match next_token(old(self).rest()) {
                TokenView::Value(ValueView::DoubleArray(x)) => r matches Ok(v) && v@ == x,
                _ => r matches Err(e) && e == Error::UnexpectedToken,
            },
    {
        match self.read_next() {
            Token::Value(Value::DoubleArray(v)) => Ok(v),
            _ => Err(Error::UnexpectedToken),
        }
    }

    pub fn expect_double_array_or_end(&mut self) -> (r: Result<Option<Vec<u64>>, Error>)
        ensures
            final(self).rest() == after_next(old(self).rest()),
            match next_token(old(self).rest()) {
                TokenView::Value(ValueView::DoubleArray(x)) => r matches Ok(Some(v)) && v@ == x,
                TokenView::End => r matches Ok(None),
                _ => r matches Err(e) && e == Error::UnexpectedToken,
            },
    {
        match self.read_next() {
            Token::Value(Value::DoubleArray(v)) => Ok(Some(v)),
            Token::End => Ok(None),
            _ => Err(Error::UnexpectedToken),
        }
    }

    pub fn expect_vec2(&mut self) -> (r: Result<(u64, u64), Error>)
        ensures
            final(self).rest() == after_next(old(self).rest()),
            match next_token(old(self).rest()) {
                TokenView::Value(ValueView::Vec2(x)) => r == Ok::<(u64, u64), Error>(x),
                _ => r matches Err(e) && e == Error::UnexpectedToken,
            },
    {
        match self.read_next() {
            Token::Value(Value::Vec2(v)) => Ok(v),
            _ => Err(Error::UnexpectedToken),
        }
    }

    pub fn expect_vec2_or_end(&mut self) -> (r: Result<Option<(u64, u64)>, Error>)
        ensures
            final(self).rest() == after_next(old(self).rest()),
            match next_token(old(self).rest()) {
                TokenView::Value(ValueView::Vec2(x)) => r == Ok::<Option<(u64, u64)>, Error>(Some(x)),
                TokenView::End => r matches Ok(None),
                _ => r matches Err(e) && e == Error::UnexpectedToken,
            },
    {
        match self.read_next() {
            Token::Value(Value::Vec2(v)) => Ok(Some(v)),
            Token::End => Ok(None),
            _ => Err(Error::UnexpectedToken),
        }
    }

    pub fn expect_vec2_array(&mut self) -> (r: Result<Vec<(u64, u64)>, Error>)
        ensures
            final(self).rest() == after_next(old(self).rest()),
            match next_token(old(self).rest()) {
                TokenView::Value(ValueView::Vec2Array(x)) => r matches Ok(v) && v@ == x,
                _ => r matches Err(e) && e == Error::UnexpectedToken,
            },
    {
        match self.read_next() {
            Token::Value(Value::Vec2Array(v)) => Ok(v),
            _ => Err(Error::UnexpectedToken),
        }
    }

    pub fn expect_vec2_array_or_end(&mut self) -> (r: Result<Option<Vec<(u64, u64)>>, Error>)
        ensures
            final(self).rest() == after_next(old(self).rest()),
            match next_token(old(self).rest()) {
                TokenView::Value(ValueView::Vec2Array(x)) => r matches Ok(Some(v)) && v@ == x,
                TokenView::End => r matches Ok(None),
                _ => r matches Err(e) && e == Error::UnexpectedToken,
            },
    {
        match self.read_next() {
            Token::Value(Value::Vec2Array(v)) => Ok(Some(v)),
            Token::End => Ok(None),
            _ => Err(Error::UnexpectedToken),
        }
    }

    pub fn expect_vec3(&mut self) -> (r: Result<(u64, u64, u64), Error>)
        ensures
            final(self).rest() == after_next(old(self).rest()),
            match next_token(old(self).rest()) {
                TokenView::Value(ValueView::Vec3(x)) => r == Ok::<(u64, u64, u64), Error>(x),
                _ => r matches Err(e) && e == Error::UnexpectedToken,
            },
    {
        match self.read_next() {
            Token::Value(Value::Vec3(v)) => Ok(v),
            _ => Err(Error::UnexpectedToken),
        }
    }

    pub fn expect_vec3_or_end(&mut self) -> (r: Result<Option<(u64, u64, u64)>, Error>)
        ensures
            final(self).rest() == after_next(old(self).rest()),
            match next_token(old(self).rest()) {
                TokenView::Value(ValueView::Vec3(x)) => r == Ok::<Option<(u64, u64, u64)>, Error>(Some(x)),
                TokenView::End => r matches Ok(None),
                _ => r matches Err(e) && e == Error::UnexpectedToken,
            },
    {
        match self.read_next() {
            Token::Value(Value::Vec3(v)) => Ok(Some(v)),
            Token::End => Ok(None),
            _ => Err(Error::UnexpectedToken),
        }
    }

    pub fn expect_vec3_array(&mut self) -> (r: Result<Vec<(u64, u64, u64)>, Error>)
        ensures
            final(self).rest() == after_next(old(self).rest()),
            match next_token(old(self).rest()) {
                TokenView::Value(ValueView::Vec3Array(x)) => r matches Ok(v) && v@ == x,
                _ => r matches Err(e) && e == Error::UnexpectedToken,
            },
    {
        match self.read_next() {
            Token::Value(Value::Vec3Array(v)) => Ok(v),
            _ => Err(Error::UnexpectedToken),
        }
    }

    pub fn expect_vec3_array_or_end(&mut self) -> (r: Result<Option<Vec<(u64, u64, u64)>>, Error>)
        ensures
            final(self).rest() == after_next(old(self).rest()),
            match next_token(old(self).rest()) {
                TokenView::Value(ValueView::Vec3Array(x)) => r matches Ok(Some(v)) && v@ == x,
                TokenView::End => r matches Ok(None),
                _ => r matches Err(e) && e == Error::UnexpectedToken,
            },
    {
        match self.read_next() {
            Token::Value(Value::Vec3Array(v)) => Ok(Some(v)),
            Token::End => Ok(None),
            _ => Err(Error::UnexpectedToken),
        }
    }

    pub fn expect_vec4(&mut self) -> (r: Result<(u64, u64, u64, u64), Error>)
        ensures
            final(self).rest() == after_next(old(self).rest()),
            match next_token(old(self).rest()) {
                TokenView::Value(ValueView::Vec4(x)) => r == Ok::<(u64, u64, u64, u64), Error>(x),
                _ => r matches Err(e) && e == Error::UnexpectedToken,
            },
    {
        match self.read_next() {
            Token::Value(Value::Vec4(v)) => Ok(v),
            _ => Err(Error::UnexpectedToken),
        }
    }

    pub fn expect_vec4_or_end(&mut self) -> (r: Result<Option<(u64, u64, u64, u64)>, Error>)
        ensures
            final(self).rest() == after_next(old(self).rest()),
            match next_token(old(self).rest()) {
                TokenView::Value(ValueView::Vec4(x)) => r == Ok::<Option<(u64, u64, u64, u64)>, Error>(Some(x)),
                TokenView::End => r matches Ok(None),
                _ => r matches Err(e) && e == Error::UnexpectedToken,
            },
    {
        match self.read_next() {
            Token::Value(Value::Vec4(v)) => Ok(Some(v)),
            Token::End => Ok(None),
            _ => Err(Error::UnexpectedToken),
        }
    }

    pub fn expect_vec4_array(&mut self) -> (r: Result<Vec<(u64, u64, u64, u64)>, Error>)
        ensures
            final(self).rest() == after_next(old(self).rest()),
            match next_token(old(self).rest()) {
                TokenView::Value(ValueView::Vec4Array(x)) => r matches Ok(v) && v@ == x,
                _ => r matches Err(e) && e == Error::UnexpectedToken,
            },
    {
        match self.read_next() {
            Token::Value(Value::Vec4Array(v)) => Ok(v),
            _ => Err(Error::UnexpectedToken),
        }
    }

    pub fn expect_vec4_array_or_end(&mut self) -> (r: Result<Option<Vec<(u64, u64, u64, u64)>>, Error>)
        ensures
            final(self).rest() == after_next(old(self).rest()),
            match next_token(old(self).rest()) {
                TokenView::Value(ValueView::Vec4Array(x)) => r matches Ok(Some(v)) && v@ == x,
                TokenView::End => r matches Ok(None),
                _ => r matches Err(e) && e == Error::UnexpectedToken,
            },
    {
        match self.read_next() {
            Token::Value(Value::Vec4Array(v)) => Ok(Some(v)),
            Token::End => Ok(None),
            _ => Err(Error::UnexpectedToken),
        }
    }

    pub fn expect_box2(&mut self) -> (r: Result<((u64, u64), (u64, u64)), Error>)
        ensures
            final(self).rest() == after_next(old(self).rest()),
            match next_token(old(self).rest()) {
                TokenView::Value(ValueView::Box2(x)) => r == Ok::<((u64, u64), (u64, u64)), Error>(x),
                _ => r matches Err(e) && e == Error::UnexpectedToken,
            },
    {
        match self.read_next() {
            Token::Value(Value::Box2(v)) => Ok(v),
            _ => Err(Error::UnexpectedToken),
        }
    }

    pub fn expect_box2_or_end(&mut self) -> (r: Result<Option<((u64, u64), (u64, u64))>, Error>)
        ensures
            final(self).rest() == after_next(old(self).rest()),
            match next_token(old(self).rest()) {
                TokenView::Value(ValueView::Box2(x)) => r == Ok::<Option<((u64, u64), (u64, u64))>, Error>(Some(x)),
                TokenView::End => r matches Ok(None),
                _ => r matches Err(e) && e == Error::UnexpectedToken,
            },
    {
        match self.read_next() {
            Token::Value(Value::Box2(v)) => Ok(Some(v)),
            Token::End => Ok(None),
            _ => Err(Error::UnexpectedToken),
        }
    }

    pub fn expect_box2_array(&mut self) -> (r: Result<Vec<((u64, u64), (u64, u64))>, Error>)
        ensures
            final(self).rest() == after_next(old(self).rest()),
            match next_token(old(self).rest()) {
                TokenView::Value(ValueView::Box2Array(x)) => r matches Ok(v) && v@ == x,
                _ => r matches Err(e) && e == Error::UnexpectedToken,
            },
    {
        match self.read_next() {
            Token::Value(Value::Box2Array(v)) => Ok(v),
            _ => Err(Error::UnexpectedToken),
        }
    }

    pub fn expect_box2_array_or_end(&mut self) -> (r: Result<Option<Vec<((u64, u64), (u64, u64))>>, Error>)
        ensures
            final(self).rest() == after_next(old(self).rest()),
            match next_token(old(self).rest()) {
                TokenView::Value(ValueView::Box2Array(x)) => r matches Ok(Some(v)) && v@ == x,
                TokenView::End => r matches Ok(None),
                _ => r matches Err(e) && e == Error::UnexpectedToken,
            },
    {
        match self.read_next() {
            Token::Value(Value::Box2Array(v)) => Ok(Some(v)),
            Token::End => Ok(None),
            _ => Err(Error::UnexpectedToken),
        }
    }

    pub fn expect_string(&mut self) -> (r: Result<String, Error>)
        ensures
            final(self).rest() == after_next(old(self).rest()),
            match next_token(old(self).rest()) {
                TokenView::Value(ValueView::String(x)) => r matches Ok(v) && v@ == x,
                _ => r matches Err(e) && e == Error::UnexpectedToken,
            },
    {
        match self.read_next() {
            Token::Value(Value::String(v)) => Ok(v),
            _ => Err(Error::UnexpectedToken),
        }
    }

    pub fn expect_string_or_end(&mut self) -> (r: Result<Option<String>, Error>)
        ensures
            final(self).rest() == after_next(old(self).rest()),
            match next_token(old(self).rest()) {
                TokenView::Value(ValueView::String(x)) => r matches Ok(Some(v)) && v@ == x,
                TokenView::End => r matches Ok(None),
                _ => r matches Err(e) && e == Error::UnexpectedToken,
            },
    {
        match self.read_next() {
            Token::Value(Value::String(v)) => Ok(Some(v)),
            Token::End => Ok(None),
            _ => Err(Error::UnexpectedToken),
        }
    }

    pub fn expect_blob(&mut self) -> (r: Result<Vec<u8>, Error>)
        ensures
            final(self).rest() == after_next(old(self).rest()),
            match next_token(old(self).rest()) {
                TokenView::Value(ValueView::Blob(x)) => r matches Ok(v) && v@ == x,
                _ => r matches Err(e) && e == Error::UnexpectedToken,
            },
    {
        match self.read_next() {
            Token::Value(Value::Blob(v)) => Ok(v),
            _ => Err(Error::UnexpectedToken),
        }
    }

    pub fn expect_blob_or_end(&mut self) -> (r: Result<Option<Vec<u8>>, Error>)
        ensures
            final(self).rest() == after_next(old(self).rest()),
            match next_token(old(self).rest()) {
                TokenView::Value(ValueView::Blob(x)) => r matches Ok(Some(v)) && v@ == x,
                TokenView::End => r matches Ok(None),
                _ => r matches Err(e) && e == Error::UnexpectedToken,
            },
    {
        match self.read_next() {
            Token::Value(Value::Blob(v)) => Ok(Some(v)),
            Token::End => Ok(None),
            _ => Err(Error::UnexpectedToken),
        }
    }
}

/// The number of groups open after `t`, from the number open before it; an
/// `End` with none open leaves none.
pub open spec fn depth_after(depth: nat, t: TokenView<u64>) -> nat {
    match t {
        TokenView::Start => depth + 1,
        TokenView::End => if depth > 0 {
            (depth - 1) as nat
        } else {
            0
        },
        _ => depth,
    }
}

/// Tracks nesting over a stream read token by token: a top-level group is
/// complete when the depth comes back to zero.
pub fn next_depth(depth: usize, t: &Token<u64>) -> (r: usize)
    requires
        depth < usize::MAX,
    ensures
        r == depth_after(depth as nat, t@),
{
    match t {
        Token::Start => depth + 1,
        Token::End => if depth > 0 {
            depth - 1
        } else {
            0
        },
        _ => depth,
    }
}

} // verus!
