//! SQL identifier fragments.

use vstd::prelude::*;

use crate::text::{contains_char, double_char, has_char, push_char, push_doubling, push_str};

verus! {

/// A dataset `source` as a SQL table expression: names holding `.` (such as
/// `api.people_daily`) become one double-quoted identifier with `"` doubled; others stay as they are.
pub open spec fn spec_table_expr(name: Seq<char>) -> Seq<char> {
    if has_char(name, '.') {
        seq!['"'] + double_char(name, '"') + seq!['"']
    } else {
        name
    }
}

/// Appends `name` as a SQL table expression.
pub fn push_table_expr(out: &mut String, name: &str)
    ensures
        final(out)@ == old(out)@ + spec_table_expr(name@),
{
    if contains_char(name, '.') {
        push_char(out, '"');
        push_doubling(out, name, '"');
        push_char(out, '"');
    } else {
        push_str(out, name);
    }
}

/// `name` as a SQL table expression.
pub fn dotted_osi_name_as_sql_table_expr(name: &str) -> (res: String)
    ensures
        res@ == spec_table_expr(name@),
{
    let mut out = String::new();
    push_table_expr(&mut out, name);
    out
}

} // verus!
