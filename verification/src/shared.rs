//! The helpers shared by several rules, under the paths the rules use.
pub use crate::case as case;
pub use crate::case::{convert_case, detect_case, is_case, split_words, CaseStyle};
pub use crate::relay as relay;
pub use crate::relay::{
    connection_for_field, edge_for_connection, edge_of_connection, has_backward_pagination,
    has_forward_pagination, is_backward_only, is_connection_type, is_edge_type, is_forward_only,
    is_page_info_type, RelayOpts,
};
pub use crate::oneof as oneof;
pub use crate::oneof::{directive_arg, is_one_of_input, one_of_fields};
