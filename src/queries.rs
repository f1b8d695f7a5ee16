//! The text of the queries that a run sends to the database.
use vstd::prelude::*;
use vstd::string::*;

verus! {

/// `s` as the body of a quoted SQL string: each quote and each backslash is
/// doubled, so that the literal matches `s` exactly. This assumes the server
/// treats a backslash in a string literal as an escape, which is MySQL's
/// default; under the `NO_BACKSLASH_ESCAPES` SQL mode a name holding a
/// backslash would not match.
pub open spec fn escaped(s: Seq<char>) -> Seq<char>
    decreases s.len(),
{
    if s.len() == 0 {
        Seq::empty()
    } else if s.last() == '\'' || s.last() == '\\' {
        escaped(s.drop_last()) + seq![s.last(), s.last()]
    } else {
        escaped(s.drop_last()).push(s.last())
    }
}

/// The query that looks up the schema code of an entity by its exact name.
pub open spec fn lookup_text(name: Seq<char>) -> Seq<char> {
    "SELECT DbName FROM deloitte.b_projectlist WHERE ProjectName = '"@ + escaped(name) + "'"@
}

/// The query that counts the rows of a table of a schema.
pub open spec fn count_text(code: Seq<char>, table: Seq<char>) -> Seq<char> {
    "SELECT COUNT(*) FROM "@ + code + "."@ + table
}

/// The query that reads every row of a table of a schema.
pub open spec fn select_text(code: Seq<char>, table: Seq<char>) -> Seq<char> {
    "SELECT * FROM "@ + code + "."@ + table
}

fn escape_sql(s: &str) -> (r: String)
    ensures
        r@ == escaped(s@),
{
    let len = s.unicode_len();
    let mut r = String::new();
    let mut i: usize = 0;
    while i < len
        invariant
            len == s@.len(),
            i <= len,
            r@ == escaped(s@.subrange(0, i as int)),
        decreases len - i,
    {
        let x = s.get_char(i);
        let piece = s.substring_char(i, i + 1);
        assert(piece@ =~= seq![x]);
        let ghost before = r@;
        r.append(piece);
        if x == '\'' || x == '\\' {
            r.append(piece);
        }
        proof {
            let done = s@.subrange(0, i + 1);
            assert(done.drop_last() =~= s@.subrange(0, i as int));
            assert(done.last() == x);
            if x == '\'' || x == '\\' {
                assert(r@ =~= before + seq![x, x]);
            } else {
                assert(r@ =~= before.push(x));
            }
        }
        i = i + 1;
    }
    assert(s@.subrange(0, len as int) =~= s@);
    r
}

/// The query that looks up the schema code of an entity.
pub fn lookup_query(name: &str) -> (r: String)
    ensures
        r@ == lookup_text(name@),
{
    let mut r = String::from_str("SELECT DbName FROM deloitte.b_projectlist WHERE ProjectName = '");
    r.append(escape_sql(name).as_str());
    r.append("'");
    r
}

/// The query that probes a table by counting its rows.
pub fn count_query(code: &str, table: &str) -> (r: String)
    ensures
        r@ == count_text(code@, table@),
{
    let mut r = String::from_str("SELECT COUNT(*) FROM ");
    r.append(code);
    r.append(".");
    r.append(table);
    r
}

/// The query that reads a whole table.
pub fn select_query(code: &str, table: &str) -> (r: String)
    ensures
        r@ == select_text(code@, table@),
{
    let mut r = String::from_str("SELECT * FROM ");
    r.append(code);
    r.append(".");
    r.append(table);
    r
}

} // verus!
