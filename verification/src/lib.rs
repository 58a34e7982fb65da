//! A small HTTP/1.x edge server core: per-host declarative routing between
//! static files, a reverse proxy and redirects, over an incrementally parsed
//! request stream.
//!
//! The library is split along the per-connection pipeline: `head` parses a
//! request head off raw bytes, `reader` assembles a whole request chunk by
//! chunk, `config` holds the directive table built at startup, `routing`
//! decides the single outcome for a request, and `pattern` gives the path
//! pattern language that `root` and `reverse_proxy` directives use.

use vstd::prelude::*;

mod ascii;
mod config;
mod kdl_io;
mod head;
mod reader;
mod routing;
mod pattern;

pub use ascii::{eq_ignore_ascii_case, str_eq};
pub use config::{
    build_directives, build_table_from_raw, ConfigError, Directive, DirectiveTable, HostEntry,
    RawHost, RawNode,
};
pub use head::{
    content_length_of, host_value, parse_head, parse_request_headers, parse_usize, HeadStatus,
    ParsedRequest, Version, MAX_HEADERS, MAX_HEAD_BYTES,
};
pub use kdl_io::build_config;
pub use pattern::matches_pattern;
pub use reader::{CloseResult, FeedResult, RequestReader};
pub use routing::{
    apply_directory_index, replace_uri, resolve_file_path, route, RoutingOutcome,
    STATUS_FORBIDDEN, STATUS_INTERNAL_SERVER_ERROR, STATUS_NOT_FOUND,
};

verus! {

} // verus!
