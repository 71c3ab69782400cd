//! The lint rules, one module each.
pub mod alphabetize;
pub mod description_style;
pub mod input_name;
pub mod lone_executable_definition;
pub mod match_document_filename;
pub mod no_deprecated;
pub mod no_duplicate_fields;
pub mod no_hashtag_description;
pub mod no_one_place_fragments;
pub mod no_root_type;
pub mod no_scalar_result_type_on_mutation;
pub mod require_deprecation_date;
pub mod require_deprecation_reason;
pub mod unique_enum_value_names;
pub mod no_typename_prefix;
pub mod no_unused_fields;
pub mod no_unreachable_types;
pub mod require_description;
pub mod require_field_of_type_query_in_mutation_result;
pub mod require_import_fragment;
pub mod require_nullable_fields_with_oneof;
pub mod relay_arguments;
pub mod relay_connection_types;
pub mod relay_edge_types;
pub mod relay_page_info;
pub mod require_nullable_result_in_root;
pub mod require_selections;
pub mod require_type_pattern_with_oneof;
pub mod selection_set_depth;
pub mod strict_id_in_types;
pub mod naming_convention;
pub mod no_anonymous_operations;
pub mod unique_fragment_name;
pub mod unique_operation_name;
