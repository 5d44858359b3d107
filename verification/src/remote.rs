//! Reading the answers an operator types while configuring a client.

use crate::text::{parse_u64, parsed_u64, same_text, u64_parse_error_text};
use vstd::prelude::*;

verus! {

/// A yes/no answer: yes if it starts with `y`, no if with `n`, either case.
///
/// Only `y` and `Y` lower-case to something starting with `y`, and only `n`
/// and `N` to something starting with `n`, so the first character decides.
pub open spec fn yes_no(s: Seq<char>) -> Option<bool> {
    if s.len() > 0 && (s[0] == 'y' || s[0] == 'Y') {
        Some(true)
    } else if s.len() > 0 && (s[0] == 'n' || s[0] == 'N') {
        Some(false)
    } else {
        None
    }
}

/// Extremely basic parsing of yes/no: anything whose first letter is y or n,
/// upper or lowercase.
pub fn parse_y_n(s: &str) -> (r: Result<bool, String>)
    ensures
        match r {
            Ok(b) => yes_no(s@) == Some(b),
            Err(e) => yes_no(s@) is None && e@ == "Please enter y/n, not '"@ + s@ + "'."@,
        },
{
    if s.unicode_len() > 0 {
        let c = s.get_char(0);
        if c == 'y' || c == 'Y' {
            return Ok(true);
        }
        if c == 'n' || c == 'N' {
            return Ok(false);
        }
    }
    let mut e = String::from_str("Please enter y/n, not '");
    e.append(s);
    e.append("'.");
    Err(e)
}

/// Parse a string as an unsigned integer, saying what was wrong with it if
/// it is not one.
pub fn parse_uint(s: &str) -> (r: Result<u64, String>)
    ensures
        match r {
            Ok(v) => parsed_u64(s@) == Some(v),
            Err(e) => parsed_u64(s@) is None && e@ == "Could not parse '"@ + s@
                + "' as positive integer: "@ + u64_parse_error_text(s@),
        },
{
    match parse_u64(s) {
        Ok(v) => Ok(v),
        Err(why) => {
            let mut e = String::from_str("Could not parse '");
            e.append(s);
            e.append("' as positive integer: ");
            e.append(why.as_str());
            Err(e)
        },
    }
}

/// What the remote service says of the show it found running when a new
/// configuration arrived.
pub open spec fn stop_text(was_running: bool) -> Seq<char> {
    if was_running {
        "Stopped a running show."@
    } else {
        "No show was running."@
    }
}

/// The reply to a configuration that parsed: whether a running show was
/// stopped, then whether the new one could be handed to the show thread.
pub fn start_reply(was_running: bool, send_error: Option<&str>) -> (r: String)
    ensures
        r@ == stop_text(was_running) + match send_error {
            Some(e) => "\nError trying to start new show: "@ + e@ + "."@,
            None => "\nStarting a new show."@,
        },
{
    let mut reply = String::from_str(
        if was_running {
            "Stopped a running show."
        } else {
            "No show was running."
        },
    );
    match send_error {
        Some(e) => {
            reply.append("\nError trying to start new show: ");
            reply.append(e);
            reply.append(".");
        },
        None => {
            reply.append("\nStarting a new show.");
        },
    }
    reply
}

/// The reply to a request that is not a show configuration.
pub fn unparsed_reply(error: &str) -> (r: String)
    ensures
        r@ == "Could not parse request as a show configuration:\n"@ + error@,
{
    let mut reply = String::from_str("Could not parse request as a show configuration:\n");
    reply.append(error);
    reply
}

/// The names, one after another, with a newline between each two.
pub open spec fn joined_lines(names: Seq<Seq<char>>) -> Seq<char>
    decreases names.len(),
{
    if names.len() == 0 {
        Seq::empty()
    } else if names.len() == 1 {
        names[0]
    } else {
        joined_lines(names.drop_last()) + "\n"@ + names.last()
    }
}

/// The text of each client name.
pub open spec fn name_texts(clients: Seq<String>) -> Seq<Seq<char>> {
    clients.map_values(|c: String| c@)
}

/// Accept a client name only if it is one of the known clients; otherwise say
/// which names there are, one per line.
pub fn parse_client_name(name: &str, clients: &Vec<String>) -> (r: Result<String, String>)
    ensures
        match r {
            Ok(n) => n@ == name@ && exists|i: int| 0 <= i < clients.len() && #[trigger] clients[i]@ == name@,
            Err(e) => (forall|i: int| 0 <= i < clients.len() ==> #[trigger] clients[i]@ != name@)
                && e@ == "'"@ + name@ + "' is not a recognized client name; available clients: "@
                + joined_lines(name_texts(clients@)),
        },
{
    let mut i: usize = 0;
    while i < clients.len()
        invariant
            0 <= i <= clients.len(),
            forall|k: int| 0 <= k < i ==> #[trigger] clients[k]@ != name@,
        decreases clients.len() - i,
    {
        if same_text(clients[i].as_str(), name) {
            return Ok(String::from_str(name));
        }
        i = i + 1;
    }
    let ghost names = name_texts(clients@);
    let mut listing = String::from_str("");
    proof {
        reveal_strlit("");
        assert(names.take(0) =~= Seq::<Seq<char>>::empty());
    }
    let mut j: usize = 0;
    while j < clients.len()
        invariant
            0 <= j <= clients.len(),
            names == name_texts(clients@),
            listing@ == joined_lines(names.take(j as int)),
        decreases clients.len() - j,
    {
        proof {
            assert(names.take(j as int + 1).drop_last() =~= names.take(j as int));
            assert(names[j as int] == clients[j as int]@);
        }
        if j > 0 {
            listing.append("\n");
        } else {
            assert(names.take(1) =~= seq![names[0]]);
        }
        listing.append(clients[j].as_str());
        j = j + 1;
    }
    assert(names.take(clients.len() as int) =~= names);
    let mut e = String::from_str("'");
    e.append(name);
    e.append("' is not a recognized client name; available clients: ");
    e.append(listing.as_str());
    Err(e)
}

} // verus!
