//! The response envelope and the mapping of storage-level failures to
//! stable field-level diagnostics.

use crate::strutil::{all_digits, digits_value, parse_u32, str_eq};
use vstd::prelude::*;
use vstd::string::StringExecFns;

verus! {

/// The envelope every endpoint answers with: a numeric code, a human
/// message, and an optional payload.
#[derive(Debug)]
pub struct MyBaseResponse<T> {
    pub code: u32,
    pub message: String,
    pub data: Option<T>,
}

impl<T> MyBaseResponse<T> {
    /// A successful response, with "OK" standing in for a missing
    /// message.
    pub fn ok(data: Option<T>, message: Option<String>) -> (r: Self)
        ensures
            r.code == 200,
            r.message@ == match message {
                Some(m) => m@,
                None => "OK"@,
            },
            r.data == data,
    {
        let msg = match message {
            Some(m) => m,
            None => String::from_str("OK"),
        };
        MyBaseResponse { code: 200, message: msg, data }
    }

    /// An error response without payload.
    pub fn error(code: u32, message: &str) -> (r: Self)
        ensures
            r.code == code,
            r.message@ == message@,
            r.data is None,
    {
        MyBaseResponse { code, message: message.to_owned(), data: None }
    }

    /// The response for a field-level diagnostic: the diagnostic's own
    /// code where it is a well-formed number, else 500.
    pub fn from_field_error(e: &FieldError) -> (r: Self)
        ensures
            r.code == (match parse_code_spec(e.code@) {
                Some(v) => v,
                None => 500u32,
            }),
            r.message@ == e.message@,
            r.data is None,
    {
        let code = match parse_u32(e.code.as_str()) {
            Some(v) => v,
            None => 500,
        };
        MyBaseResponse { code, message: e.message.clone(), data: None }
    }
}

/// The numeric value of a response-code string, when it is a
/// non-empty digit string whose value fits in a `u32`.
pub open spec fn parse_code_spec(s: Seq<char>) -> Option<u32> {
    if s.len() > 0 && all_digits(s) && digits_value(s) <= u32::MAX {
        Some(digits_value(s) as u32)
    } else {
        None
    }
}

/// A structured storage diagnostic: the field concerned, a message,
/// and a stable code.
#[derive(Debug, PartialEq)]
pub struct FieldError {
    pub field: String,
    pub message: String,
    pub code: String,
}

impl Clone for FieldError {
    fn clone(&self) -> (r: Self)
        ensures
            r == *self,
    {
        FieldError {
            field: self.field.clone(),
            message: self.message.clone(),
            code: self.code.clone(),
        }
    }
}

impl FieldError {
    /// Builds a diagnostic from its three parts.
    pub fn new(field: String, message: String, code: String) -> (r: Self)
        ensures
            r.field == field,
            r.message == message,
            r.code == code,
    {
        FieldError { field, message, code }
    }
}

/// The diagnostic for a storage error, from the error's SQLSTATE code,
/// the field it concerns, and its raw message. The constraint codes
/// for uniqueness, missing values, foreign keys and checks map to
/// stable client codes; everything else is a plain internal error.
pub fn map_pg_error_code(code: &str, field: String, message: &str) -> (r: FieldError)
    ensures
        r.field == field,
        code@ == "23505"@ ==> r.message@ == "Already exists"@ && r.code@ == "409"@,
        code@ == "23502"@ ==> r.message@ == "Required field missing"@ && r.code@ == "400"@,
        code@ == "23503"@ ==> r.message@ == "Foreign key violation"@ && r.code@ == "400"@,
        code@ == "23514"@ ==> r.message@ == "Check constraint failed"@ && r.code@ == "400"@,
        code@ != "23505"@ && code@ != "23502"@ && code@ != "23503"@ && code@ != "23514"@
            ==> r.message@ == message@ && r.code@ == "500"@,
{
    proof {
        reveal_strlit("23505");
        reveal_strlit("23502");
        reveal_strlit("23503");
        reveal_strlit("23514");
        assert("23505"@ != "23502"@ && "23505"@ != "23503"@ && "23505"@ != "23514"@) by {
            assert("23505"@[4] == '5' && "23502"@[4] == '2' && "23503"@[4] == '3' && "23514"@[3]
                == '1' && "23505"@[3] == '0');
        }
        assert("23502"@ != "23503"@ && "23502"@ != "23514"@ && "23503"@ != "23514"@) by {
            assert("23502"@[4] == '2' && "23503"@[4] == '3' && "23514"@[3] == '1' && "23502"@[3]
                == '0' && "23503"@[3] == '0');
        }
    }
    if str_eq(code, "23505") {
        FieldError::new(field, String::from_str("Already exists"), String::from_str("409"))
    } else if str_eq(code, "23502") {
        FieldError::new(
            field,
            String::from_str("Required field missing"),
            String::from_str("400"),
        )
    } else if str_eq(code, "23503") {
        FieldError::new(field, String::from_str("Foreign key violation"), String::from_str("400"))
    } else if str_eq(code, "23514") {
        FieldError::new(
            field,
            String::from_str("Check constraint failed"),
            String::from_str("400"),
        )
    } else {
        FieldError::new(field, message.to_owned(), String::from_str("500"))
    }
}

/// Pagination and search options of the list endpoints.
#[derive(Debug, Default, PartialEq)]
pub struct FilterOptions {
    pub page: Option<i64>,
    pub limit: Option<i64>,
    pub search: Option<String>,
}

/// The limit and offset that a page selection denotes: page `p` with
/// limit `l` starts `(p - 1) * l` records in, with page 1 and limit
/// 10 as defaults. `None` when the offset overflows.
pub fn page_offset(page: Option<i64>, limit: Option<i64>) -> (r: Option<(i64, i64)>)
    ensures
        ({
            let p = page.unwrap_or(1);
            let l = limit.unwrap_or(10);
            if i64::MIN <= (p - 1) * l <= i64::MAX {
                r == Some((l, ((p - 1) * l) as i64))
            } else {
                r is None
            }
        }),
{
    let p = match page {
        Some(v) => v,
        None => 1,
    };
    let l = match limit {
        Some(v) => v,
        None => 10,
    };
    if p == i64::MIN {
        return page_offset_overflow(p, l);
    }
    let pm1 = p - 1;
    match pm1.checked_mul(l) {
        Some(off) => Some((l, off)),
        None => None,
    }
}

/// The out-of-range answer, split out so the main path stays simple:
/// for the smallest page number the offset is defined only when the
/// limit is 0.
fn page_offset_overflow(p: i64, l: i64) -> (r: Option<(i64, i64)>)
    requires
        p == i64::MIN,
    ensures
        ({
            if i64::MIN <= (p - 1) * l <= i64::MAX {
                r == Some((l, ((p - 1) * l) as i64))
            } else {
                r is None
            }
        }),
{
    if l == 0 {
        Some((0, 0))
    } else {
        proof {
            let pm: int = (i64::MIN as int) - 1;
            if l > 0 {
                assert(pm * l <= pm) by (nonlinear_arith)
                    requires
                        l >= 1 && pm < 0,
                ;
            } else {
                assert(pm * l >= -pm) by (nonlinear_arith)
                    requires
                        l <= -1 && pm < 0,
                ;
            }
        }
        None
    }
}

} // verus!
