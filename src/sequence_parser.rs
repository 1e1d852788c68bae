use vstd::prelude::*;
use crate::types::{GroupChargeOptions, is_gco_name, gco_of_name, gco_parse_error, decimal, push_decimal};
use crate::text::{split_on, split_text, trim_each, trim_all, trim_text, trimmed, views};

verus! {

/// The message for a charge behaviour token that names no behaviour.
pub open spec fn gco_token_error(idx: nat, token: Seq<char>) -> Seq<char> {
    "[ Config::build ] Invalig group charge option at line index "@ + decimal(idx)
        + " (line value: \""@ + token + "\")"@
}

/// Takes the last of a line's values, which names the charge behaviour of the
/// line's group; `idx` is the line's index, quoted in the error message.
pub fn get_gco(group_values: &mut Vec<&str>, idx: usize) -> (r: Result<GroupChargeOptions, String>)
    requires
        old(group_values)@.len() > 0,
    ensures
        final(group_values)@ == old(group_values)@.drop_last(),
        r is Ok <==> is_gco_name(old(group_values)@.last()@),
        r matches Ok(g) ==> g == gco_of_name(old(group_values)@.last()@),
        r matches Err(msg) ==> msg@ == gco_token_error(idx as nat, old(group_values)@.last()@),
{
    let token = group_values.pop().unwrap();
    match GroupChargeOptions::from_str(token) {
        Ok(g) => Ok(g),
        Err(_) => {
            let mut msg = String::from_str("[ Config::build ] Invalig group charge option at line index ");
            push_decimal(&mut msg, idx);
            msg.append(" (line value: \"");
            msg.append(token);
            msg.append("\")");
            Err(msg)
        },
    }
}

/// The message for a site literal that does not have exactly two fields.
pub open spec fn field_count_error(arg: Seq<char>) -> Seq<char> {
    "Unable to parse \""@ + arg + "\"! More than two elements detected!"@
}

/// Reads the structure of a site literal `"<behaviour>,<pKa>"`: the two
/// comma-separated fields, each trimmed. Gives the behaviour and the pKa text,
/// which is left to the caller to read as a number. A literal without exactly
/// two fields, or whose first field names no behaviour, is refused.
pub fn parse_site_literal<'a>(arg: &'a str) -> (r: Result<(GroupChargeOptions, &'a str), String>)
    ensures
        ({
            let fields = trim_all(split_on(arg@, ','));
            &&& fields.len() != 2 ==> (r matches Err(msg) && msg@ == field_count_error(arg@))
            &&& fields.len() == 2 && !is_gco_name(fields[0]) ==> (r matches Err(msg) && msg@
                == gco_parse_error(fields[0]))
            &&& fields.len() == 2 && is_gco_name(fields[0]) ==> (r matches Ok((g, pka)) && g
                == gco_of_name(fields[0]) && pka@ == fields[1])
        }),
{
    let pieces = split_text(arg, ',');
    let fields = trim_each(&pieces);
    if fields.len() != 2 {
        let mut msg = String::from_str("Unable to parse \"");
        msg.append(arg);
        msg.append("\"! More than two elements detected!");
        return Err(msg);
    }
    assert(views(fields@)[0] == fields@[0]@);
    assert(views(fields@)[1] == fields@[1]@);
    match GroupChargeOptions::from_str(fields[0]) {
        Ok(g) => Ok((g, fields[1])),
        Err(msg) => Err(msg),
    }
}

/// One line of a group registry, `<name>: <values>`, split and trimmed.
pub struct ConfigLine<'a> {
    /// The group's name.
    pub name: &'a str,
    /// The pKa texts: the C-terminal one, the N-terminal one and, where the
    /// line names a behaviour, the side chain's.
    pub values: Vec<&'a str>,
    /// The side chain's behaviour, where the line names one.
    pub gco: Option<GroupChargeOptions>,
}

/// The message for a line that is not `<name>: <values>`.
pub open spec fn line_syntax_error(idx: nat, line: Seq<char>) -> Seq<char> {
    "[ Config::build ] Invalid line syntax at line index "@ + decimal(idx) + " (line value: \""@
        + line + "\")"@
}

/// The message for a line with neither two nor four values.
pub open spec fn value_count_error(idx: nat, line: Seq<char>) -> Seq<char> {
    "[ Config::build ] Invalid number of group values at line index "@ + decimal(idx)
        + " (line value: \""@ + line + "\")"@
}

fn line_error(head: &str, idx: usize, line: &str) -> (r: String)
    ensures
        r@ == head@ + decimal(idx as nat) + " (line value: \""@ + line@ + "\")"@,
{
    let mut msg = String::from_str(head);
    push_decimal(&mut msg, idx);
    msg.append(" (line value: \"");
    msg.append(line);
    msg.append("\")");
    msg
}

/// Reads one line of a group registry, `idx` being its index in the file. The
/// line is split at `:` into a name and a value list, and the list at `,`,
/// each part trimmed. Two values are the C- and N-terminal pKa texts; four are
/// those, the side chain's, and its behaviour. Anything else is refused, and
/// so is a fourth value that names no behaviour.
pub fn parse_config_line<'a>(idx: usize, line: &'a str) -> (r: Result<ConfigLine<'a>, String>)
    ensures
        ({
            let parts = split_on(line@, ':');
            let values = trim_all(split_on(parts[1], ','));
            &&& parts.len() != 2 ==> (r matches Err(msg) && msg@ == line_syntax_error(
                idx as nat,
                line@,
            ))
            &&& parts.len() == 2 && values.len() != 2 && values.len() != 4 ==> (r matches Err(msg)
                && msg@ == value_count_error(idx as nat, line@))
            &&& parts.len() == 2 && values.len() == 2 ==> (r matches Ok(c) && c.name@ == trimmed(
                parts[0],
            ) && views(c.values@) == values && c.gco is None)
            &&& parts.len() == 2 && values.len() == 4 && !is_gco_name(values[3]) ==> (r matches Err(
                msg,
            ) && msg@ == gco_token_error(idx as nat, values[3]))
            &&& parts.len() == 2 && values.len() == 4 && is_gco_name(values[3]) ==> (r matches Ok(c)
                && c.name@ == trimmed(parts[0]) && views(c.values@) == values.take(3) && c.gco
                == Some(gco_of_name(values[3])))
        }),
{
    proof {
        reveal_strlit("[ Config::build ] Invalid line syntax at line index ");
        reveal_strlit("[ Config::build ] Invalid number of group values at line index ");
    }
    let split_line = split_text(line, ':');
    if split_line.len() != 2 {
        return Err(line_error("[ Config::build ] Invalid line syntax at line index ", idx, line));
    }
    assert(views(split_line@)[0] == split_line@[0]@);
    assert(views(split_line@)[1] == split_line@[1]@);
    let name = trim_text(split_line[0]);
    let pieces = split_text(split_line[1], ',');
    let mut values = trim_each(&pieces);
    if values.len() == 2 {
        Ok(ConfigLine { name, values, gco: None })
    } else if values.len() == 4 {
        let ghost before = values@;
        assert(views(before)[3] == before[3]@);
        match get_gco(&mut values, idx) {
            Ok(gco) => {
                assert(views(values@) =~= views(before).take(3));
                Ok(ConfigLine { name, values, gco: Some(gco) })
            },
            Err(msg) => Err(msg),
        }
    } else {
        Err(line_error("[ Config::build ] Invalid number of group values at line index ", idx, line))
    }
}

} // verus!
