//! Multi-dialect expressions (`$defs.DialectExpression`, `$defs.Expression`).

use vstd::prelude::*;

use super::enums::Dialect;
use crate::json::{JsonV, JsonValue};
use crate::resolver::error::{debug_list, push_debug_list};
use crate::text::{push_str, strings_view};
use crate::seqs::{first_match, lemma_first_match, lemma_first_match_at, lemma_first_match_none};

verus! {

/// Body of a dialect entry: SQL text or structured MNML.
pub enum DialectBody {
    Sql(String),
    Mnml(JsonValue),
}

/// Expression in a specific dialect.
pub struct DialectExpression {
    pub dialect: Dialect,
    pub body: DialectBody,
}

/// Expression definition with multi-dialect support.
pub struct Expression {
    pub dialects: Vec<DialectExpression>,
}

/// The predicate "is an MNML dialect entry".
pub open spec fn is_mnml_entry() -> spec_fn(DialectExpression) -> bool {
    |d: DialectExpression| d.dialect == Dialect::Mnml
}

/// The SQL text of an entry, if it holds SQL.
pub open spec fn entry_sql(d: DialectExpression) -> Option<Seq<char>> {
    match d.body {
        DialectBody::Sql(s) => Some(s@),
        DialectBody::Mnml(_) => None,
    }
}

/// The MNML body of an entry, if it holds one.
pub open spec fn entry_mnml(d: DialectExpression) -> Option<JsonV> {
    match d.body {
        DialectBody::Mnml(v) => Some(v@),
        DialectBody::Sql(_) => None,
    }
}

/// The structured MNML payload of the first `MNML` dialect entry, if that entry holds one.
pub open spec fn spec_pick_mnml(e: Expression) -> Option<JsonV> {
    let i = first_match(e.dialects@, is_mnml_entry());
    if i < 0 {
        None
    } else {
        entry_mnml(e.dialects@[i])
    }
}

/// The number of `MNML` dialect entries.
pub open spec fn spec_count_mnml(e: Expression) -> nat {
    e.dialects@.filter(is_mnml_entry()).len()
}

impl DialectExpression {
    pub fn sql_expression(&self) -> (res: Option<&str>)
        ensures
            match res {
                Some(s) => entry_sql(*self) == Some(s@),
                None => entry_sql(*self) is None,
            },
    {
        match &self.body {
            DialectBody::Sql(s) => Some(s.as_str()),
            DialectBody::Mnml(_) => None,
        }
    }

    pub fn mnml_body(&self) -> (res: Option<&JsonValue>)
        ensures
            match res {
                Some(v) => entry_mnml(*self) == Some(v@) && self.body == DialectBody::Mnml(*v),
                None => entry_mnml(*self) is None,
            },
    {
        match &self.body {
            DialectBody::Mnml(v) => Some(v),
            DialectBody::Sql(_) => None,
        }
    }

    /// An `ANSI_SQL` entry holding `expression`.
    pub fn ansi_sql(expression: String) -> (res: Self)
        ensures
            res.dialect == Dialect::AnsiSql,
            res.body == DialectBody::Sql(expression),
    {
        DialectExpression { dialect: Dialect::AnsiSql, body: DialectBody::Sql(expression) }
    }
}

/// Structured MNML payload from the first `dialect: MNML` entry, if present.
pub fn pick_mnml_dialect(expr: &Expression) -> (res: Option<&JsonValue>)
    ensures
        match res {
            Some(v) => spec_pick_mnml(*expr) == Some(v@),
            None => spec_pick_mnml(*expr) is None,
        },
{
    let ghost p = is_mnml_entry();
    let mut i: usize = 0;
    while i < expr.dialects.len()
        invariant
            p == is_mnml_entry(),
            i <= expr.dialects@.len(),
            forall|j: int| 0 <= j < i ==> !p(#[trigger] expr.dialects@[j]),
        decreases expr.dialects@.len() - i,
    {
        if expr.dialects[i].dialect == Dialect::Mnml {
            proof {
                lemma_first_match_at(expr.dialects@, p, i as int);
            }
            return expr.dialects[i].mnml_body();
        }
        i = i + 1;
    }
    proof {
        lemma_first_match_none(expr.dialects@, p);
    }
    None
}

/// The number of `MNML` dialect entries.
pub fn count_mnml_dialects(expr: &Expression) -> (res: usize)
    ensures
        res == spec_count_mnml(*expr),
{
    let ghost p = is_mnml_entry();
    let mut n: usize = 0;
    let mut i: usize = 0;
    while i < expr.dialects.len()
        invariant
            p == is_mnml_entry(),
            i <= expr.dialects@.len(),
            n == expr.dialects@.take(i as int).filter(p).len(),
            n <= i,
        decreases expr.dialects@.len() - i,
    {
        proof {
            crate::seqs::lemma_filter_step(expr.dialects@, p, i as int);
            expr.dialects@.take(i as int).lemma_filter_len(p);
        }
        if expr.dialects[i].dialect == Dialect::Mnml {
            n = n + 1;
        }
        i = i + 1;
    }
    proof {
        assert(expr.dialects@.take(i as int) == expr.dialects@);
    }
    n
}

/// The name `Debug` gives a dialect.
pub open spec fn dialect_debug_name(d: Dialect) -> Seq<char> {
    match d {
        Dialect::AnsiSql => "AnsiSql"@,
        Dialect::Snowflake => "Snowflake"@,
        Dialect::Mdx => "Mdx"@,
        Dialect::Tableau => "Tableau"@,
        Dialect::Databricks => "Databricks"@,
        Dialect::Mnml => "Mnml"@,
    }
}

fn push_dialect_name(out: &mut String, d: Dialect)
    ensures
        final(out)@ == old(out)@ + dialect_debug_name(d),
{
    match d {
        Dialect::AnsiSql => push_str(out, "AnsiSql"),
        Dialect::Snowflake => push_str(out, "Snowflake"),
        Dialect::Mdx => push_str(out, "Mdx"),
        Dialect::Tableau => push_str(out, "Tableau"),
        Dialect::Databricks => push_str(out, "Databricks"),
        Dialect::Mnml => push_str(out, "Mnml"),
    }
}

pub open spec fn mnml_string_msg() -> Seq<char> {
    "MNML dialect must use structured keys (col, case, aggregation, …), not expression string"@
}

pub open spec fn mnml_empty_msg() -> Seq<char> {
    "MNML dialect entry is empty"@
}

/// A dialect entry as written: its `dialect`, its `expression` string if any, the names of its
/// other keys, and those other members read as one JSON object (or why they could not be).
/// An MNML entry must hold other keys and no `expression`, and becomes that object; any other
/// dialect must hold an `expression` and nothing else, and becomes that SQL text. The result
/// is the SQL text or the MNML object of the entry, or the message of why it is refused.
pub open spec fn spec_dialect_entry(
    d: Dialect,
    expression: Option<Seq<char>>,
    keys: Seq<Seq<char>>,
    body: Result<JsonV, Seq<char>>,
) -> Result<(Option<Seq<char>>, Option<JsonV>), Seq<char>> {
    if d == Dialect::Mnml {
        if expression is Some {
            Err(mnml_string_msg())
        } else if keys.len() == 0 {
            Err(mnml_empty_msg())
        } else {
            match body {
                Err(e) => Err(e),
                Ok(v) => Ok((None, Some(v))),
            }
        }
    } else if keys.len() > 0 {
        Err(dialect_debug_name(d) + " dialect must only use `expression` string, got extra keys: "@ + debug_list(keys))
    } else {
        match expression {
            None => Err(dialect_debug_name(d) + " dialect requires `expression`"@),
            Some(s) => Ok((Some(s), None)),
        }
    }
}

/// The view of a read body.
pub open spec fn body_view(b: Result<JsonValue, String>) -> Result<JsonV, Seq<char>> {
    match b {
        Ok(v) => Ok(v@),
        Err(e) => Err(e@),
    }
}

/// Build a dialect entry from its parts as written (see [`spec_dialect_entry`]).
pub fn dialect_entry(
    dialect: Dialect,
    expression: Option<String>,
    keys: &Vec<String>,
    body: Result<JsonValue, String>,
) -> (res: Result<DialectExpression, String>)
    ensures
        match spec_dialect_entry(
            dialect,
            match expression {
                Some(s) => Some(s@),
                None => None,
            },
            strings_view(keys@),
            body_view(body),
        ) {
            Err(m) => res matches Err(e) && e@ == m,
            Ok((sql, mnml)) => res matches Ok(x) && x.dialect == dialect && entry_sql(x) == sql && entry_mnml(x)
                == mnml,
        },
{
    if dialect == Dialect::Mnml {
        if expression.is_some() {
            return Err(
                String::from_str(
                    "MNML dialect must use structured keys (col, case, aggregation, …), not expression string",
                ),
            );
        }
        if keys.len() == 0 {
            return Err(String::from_str("MNML dialect entry is empty"));
        }
        match body {
            Err(e) => Err(e),
            Ok(v) => Ok(DialectExpression { dialect: Dialect::Mnml, body: DialectBody::Mnml(v) }),
        }
    } else if keys.len() > 0 {
        let mut msg = String::new();
        push_dialect_name(&mut msg, dialect);
        push_str(&mut msg, " dialect must only use `expression` string, got extra keys: ");
        push_debug_list(&mut msg, keys);
        Err(msg)
    } else {
        match expression {
            None => {
                let mut msg = String::new();
                push_dialect_name(&mut msg, dialect);
                push_str(&mut msg, " dialect requires `expression`");
                Err(msg)
            },
            Some(s) => Ok(DialectExpression { dialect, body: DialectBody::Sql(s) }),
        }
    }
}

} // verus!
