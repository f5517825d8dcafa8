use vstd::prelude::*;

pub mod cli_parser;
pub mod request;
pub mod tcp;
pub mod text;

pub use cli_parser::{parse_url, ParsedArgs, UrlSections, METHOD};
pub use request::{build_request, decimal_string};
pub use tcp::{
    add_incoming_sign, frame_response, plan_call, remove_headers, render_response,
    split_http_response, CallPlan, Rendered, HTTPS_PORT, HTTP_PORT,
};

verus! {

} // verus!
