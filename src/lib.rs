//! Message framing for HTTP/1.x connections: body-length classification,
//! head parsing and head encoding for the client and server roles.

mod encode;
mod head;
mod headers;
mod length;
mod parse;
mod role;
mod wants;

pub use encode::{
    BodyLength,
    EncodeError,
    encode_request,
    encode_response,
    lemma_decimal_round_trip,
    push_decimal,
};
pub use head::{MessageHead, ParsedMessage, RequestLine, StatusLine, Version};
pub use headers::{Header, Word, bytes_eq_ignore_case, find_name, find_value};
pub use length::{
    DecodedLength,
    ParseError,
    classify_request,
    classify_response,
    lemma_chunked_with_content_length_fails,
    lemma_forbidden_body_is_zero,
    lemma_request_never_close_delimited,
    parse_length_value,
};
pub use parse::{
    ParseContext,
    ParsedResponse,
    RawRequest,
    RawResponse,
    ResponseStep,
    Tokens,
    lemma_keep_alive_defaults,
    lemma_request_framing_round_trip,
    lemma_response_framing_round_trip,
    parse_request,
    parse_response,
    request_from_tokens,
    response_from_tokens,
};
pub use role::Role;
pub use wants::{Wants, lemma_add_contains};
