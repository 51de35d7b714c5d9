use vstd::prelude::*;
use crate::value::{TokenView, Value};

verus! {

/// A sink of tokens. `written` is the sequence of tokens written so far;
/// `base` is what the sink held before the first of them, which writing
/// never changes.
pub trait Writer {
    spec fn inv(&self) -> bool;

    spec fn base(&self) -> Seq<u8>;

    spec fn written(&self) -> Seq<TokenView<u64>>;

    fn write_start(&mut self)
        requires
            old(self).inv(),
        ensures
            final(self).inv(),
            final(self).base() == old(self).base(),
            final(self).written() == old(self).written().push(TokenView::Start),
    ;

    fn write_end(&mut self)
        requires
            old(self).inv(),
        ensures
            final(self).inv(),
            final(self).base() == old(self).base(),
            final(self).written() == old(self).written().push(TokenView::End),
    ;

    fn write_value(&mut self, value: &Value<u64>)
        requires
            old(self).inv(),
        ensures
            final(self).inv(),
            final(self).base() == old(self).base(),
            final(self).written() == old(self).written().push(TokenView::Value(value@)),
    ;
}

} // verus!
