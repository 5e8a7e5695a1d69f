//! Telling a command from an ordinary message.

use vstd::prelude::*;

verus! {

/// `msg` is a command: it starts with the command prefix `/`.
pub open spec fn is_command_text(msg: Seq<char>) -> bool {
    msg.len() > 0 && msg[0] == '/'
}

/// The command that a message holds: the text after the prefix `/`, or
/// `None` when the message does not start with it.
pub fn get_command(raw_msg: &str) -> (r: Option<String>)
    ensures
        is_command_text(raw_msg@) ==> (r matches Some(c) && c@ == raw_msg@.drop_first()),
        !is_command_text(raw_msg@) ==> r is None,
        r matches Some(c) ==> raw_msg@ == seq!['/'] + c@,
{
    let len = raw_msg.unicode_len();
    if len > 0 && raw_msg.get_char(0) == '/' {
        let rest = raw_msg.substring_char(1, len);
        proof {
            assert(rest@ =~= raw_msg@.drop_first());
            assert(raw_msg@ =~= seq!['/'] + rest@);
        }
        Some(rest.to_string())
    } else {
        None
    }
}

} // verus!
