//! What a handler may return: anything that can be turned into a response.

use crate::error::Error;
use crate::response::{Response, ResponseView};
use vstd::prelude::*;

verus! {

/// A value that can be turned into a response.
pub trait Responder: Sized {
    /// What the response of this value holds.
    spec fn response(self) -> ResponseView;

    /// Turns this value into a response.
    fn to_response(self) -> (response: Response)
        ensures
            response@ == self.response(),
    ;
}

impl Responder for Response {
    open spec fn response(self) -> ResponseView {
        self@
    }

    fn to_response(self) -> (response: Response) {
        self
    }
}

impl Responder for &str {
    open spec fn response(self) -> ResponseView {
        ResponseView::initial().with_body(self@)
    }

    fn to_response(self) -> (response: Response) {
        Response::from_body(self)
    }
}

impl Responder for String {
    open spec fn response(self) -> ResponseView {
        ResponseView::initial().with_body(self@)
    }

    fn to_response(self) -> (response: Response) {
        Response::from_body(self.as_str())
    }
}

impl Responder for usize {
    open spec fn response(self) -> ResponseView {
        ResponseView::initial().with_code(self)
    }

    fn to_response(self) -> (response: Response) {
        Response::from_code(self)
    }
}

impl<T: Responder> Responder for Result<T, Error> {
    open spec fn response(self) -> ResponseView {
        match self {
            Ok(value) => value.response(),
            Err(e) => ResponseView::initial().with_error(e.debug_text()),
        }
    }

    fn to_response(self) -> (response: Response) {
        match self {
            Ok(value) => value.to_response(),
            Err(e) => e.to_response(),
        }
    }
}

impl<T: Responder> Responder for Option<T> {
    open spec fn response(self) -> ResponseView {
        match self {
            Some(value) => value.response(),
            None => ResponseView::initial().with_code(404),
        }
    }

    fn to_response(self) -> (response: Response) {
        match self {
            Some(value) => value.to_response(),
            None => Response::from_code(404),
        }
    }
}

impl Responder for Error {
    open spec fn response(self) -> ResponseView {
        ResponseView::initial().with_error(self.debug_text())
    }

    fn to_response(self) -> (response: Response) {
        let text = self.debug_string();
        Response::from_error(text.as_str())
    }
}

impl Responder for () {
    open spec fn response(self) -> ResponseView {
        ResponseView::initial()
    }

    fn to_response(self) -> (response: Response) {
        Response::default()
    }
}

} // verus!
