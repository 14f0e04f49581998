use vstd::prelude::*;

use crate::request::{parse_spec, ParseError, Request};
use crate::response::{invalid_request_model, wire, Response};
use crate::router::Router;

verus! {

/// What a connection does with one buffer it has read: `None` where nothing
/// was read and the connection closes; else the text to write back. A buffer
/// that does not parse is answered with a 400; one that parses goes through
/// the router.
pub fn respond<H: Fn(Request) -> Response>(router: &Router<H>, buf: &[u8; 1024]) -> (r: Option<
    String,
>)
    requires
        router.accepts_all(),
    ensures
        match parse_spec(buf@) {
            Err(ParseError::EmptyRequest) => r is None,
            Err(_) => r is Some && r->Some_0@ == wire(invalid_request_model()),
            Ok(m) => r is Some && exists|req: Request, resp: Response|
                req@ == m && router.answers(req, resp) && r->Some_0@ == wire(resp@),
        },
{
    match Request::try_from(buf) {
        Ok(request) => {
            let ghost req = request;
            let response = router.handle(request);
            let text = response.to_string();
            assert(req@ == parse_spec(buf@)->Ok_0 && router.answers(req, response));
            Some(text)
        },
        Err(ParseError::EmptyRequest) => None,
        Err(_) => Some(Response::invalid_request().to_string()),
    }
}

} // verus!
