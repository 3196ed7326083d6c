//! The text of log records.
use vstd::prelude::*;
use vstd::string::StringExecFns;

verus! {

/// The text of one field of a record.
pub open spec fn field(key: Seq<char>, value: Seq<char>) -> Seq<char> {
    seq![',', ' '] + key + seq![':', ' '] + value
}

/// The text of a record's line.
pub open spec fn line(level: Seq<char>, message: Seq<char>, fields: Seq<char>) -> Seq<char> {
    level + seq![' '] + message + fields
}

/// Adds a field to the text of a record's fields.
pub fn emit_arguments(fields: &mut String, key: &str, value: &str)
    ensures
        final(fields)@ == old(fields)@ + field(key@, value@),
        final(fields)@ == old(fields)@ + seq![',', ' '] + key@ + seq![':', ' '] + value@,
{
    proof {
        reveal_strlit(", ");
        reveal_strlit(": ");
        assert(", "@ =~= seq![',', ' ']);
        assert(": "@ =~= seq![':', ' ']);
    }
    fields.append(", ");
    fields.append(key);
    fields.append(": ");
    fields.append(value);
    assert(fields@ =~= old(fields)@ + field(key@, value@));
    assert(fields@ =~= old(fields)@ + seq![',', ' '] + key@ + seq![':', ' '] + value@);
}

/// The line that is printed for a record: its level, its message and its
/// fields.
pub fn log_line(level: &str, message: &str, fields: &str) -> (text: String)
    ensures
        text@ == level@ + seq![' '] + message@ + fields@,
        text@ == line(level@, message@, fields@),
{
    proof {
        reveal_strlit(" ");
        assert(" "@ =~= seq![' ']);
    }
    let mut text = String::new();
    text.append(level);
    text.append(" ");
    text.append(message);
    text.append(fields);
    assert(text@ =~= level@ + seq![' '] + message@ + fields@);
    text
}

} // verus!
