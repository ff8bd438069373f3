//! Diagnostic codes by name. Hundreds group the categories: E1xx lexical
//! (indentation included), E2xx syntax, E3xx names and imports, E4xx types.
pub use super::Code::E101 as LEX_INVALID_CHAR;
pub use super::Code::E102 as LEX_TAB_INDENT;
pub use super::Code::E103 as LEX_BAD_INDENT;
pub use super::Code::E104 as LEX_UNTERMINATED_TEXT;
pub use super::Code::E105 as LEX_BAD_ESCAPE;
pub use super::Code::E106 as LEX_BAD_NUMBER;
pub use super::Code::E107 as LEX_BAD_CHAR;
pub use super::Code::E201 as PARSE_UNEXPECTED;
pub use super::Code::E202 as PARSE_IMPORT_POSITION;
pub use super::Code::E203 as PARSE_ADT_MULTI_PAYLOAD;
pub use super::Code::E204 as PARSE_FLOW_FORBIDDEN;
pub use super::Code::E301 as RESOLVE_UNDEFINED;
pub use super::Code::E302 as RESOLVE_DUPLICATE;
pub use super::Code::E303 as RESOLVE_IMPORT_CONFLICT;
pub use super::Code::E304 as RESOLVE_MODULE_NOT_FOUND;
pub use super::Code::E305 as RESOLVE_NAMING;
pub use super::Code::E306 as RESOLVE_CONST_CYCLE;
pub use super::Code::E307 as RESOLVE_CONST_CALL;
pub use super::Code::E308 as RESOLVE_RECURSIVE_TYPE;
pub use super::Code::E309 as RESOLVE_IMPORT_CYCLE;
pub use super::Code::E310 as RESOLVE_EXTERNAL_RULE;
pub use super::Code::E311 as RESOLVE_STD_DECL;
pub use super::Code::E312 as RESOLVE_NOT_IMPLEMENTED;
pub use super::Code::E401 as TYPE_MISMATCH;
pub use super::Code::E402 as TYPE_FLOW_MISMATCH;
pub use super::Code::E403 as TYPE_RECORD_FIELDS;
pub use super::Code::E404 as TYPE_MATCH_NOT_EXHAUSTIVE;
pub use super::Code::E405 as TYPE_MATCH_DUPLICATE;
pub use super::Code::E406 as TYPE_ERROR_MISUSE;
pub use super::Code::E407 as TYPE_REASSIGNMENT;
pub use super::Code::E408 as TYPE_SHADOWING;
pub use super::Code::E409 as TYPE_MAIN;
pub use super::Code::E410 as TYPE_MISSING_ERROR_MARK;
pub use super::Code::E411 as TYPE_OPERATOR;
pub use super::Code::E412 as TYPE_CANNOT_INFER;
pub use super::Code::E413 as TYPE_TRANSITION;
pub use super::Code::E414 as TYPE_UNKNOWN_TYPE;
