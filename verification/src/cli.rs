//! The decisions of the command line: which role to run, and how the client
//! names the events it watches.
use vstd::prelude::*;
use vstd::string::StringExecFns;

verus! {

/// What the program runs as.
#[derive(Clone, Copy, Debug, PartialEq, Eq, Structural)]
pub enum Role {
    /// Serve the task service.
    Server,
    /// Run the demonstration client against a server.
    Client,
    /// An argument that names neither; the program prints its usage.
    Unknown,
}

/// The role that the first command-line argument asks for; without one, the
/// program serves.
pub open spec fn role_for(arg: Option<Seq<char>>) -> Role {
    match arg {
        None => Role::Server,
        Some(a) => if a == "server"@ {
            Role::Server
        } else if a == "client"@ {
            Role::Client
        } else {
            Role::Unknown
        },
    }
}

/// Only a missing argument or exactly `server` selects the server, only exactly
/// `client` selects the client, and every other argument is unknown.
pub proof fn law_role_for(arg: Option<Seq<char>>)
    ensures
        role_for(arg) == Role::Server <==> (arg is None || arg->0 == "server"@),
        role_for(arg) == Role::Client <==> (arg is Some && arg->0 == "client"@),
        role_for(arg) == Role::Unknown <==> (arg is Some && arg->0 != "server"@ && arg->0
            != "client"@),
{
    if arg is Some {
        assert("server"@ != "client"@) by {
            reveal_strlit("server");
            reveal_strlit("client");
            assert("server"@[0] != "client"@[0]);
        }
    }
}

/// The role that `arg`, the first command-line argument if any, asks for.
pub fn role_from_arg(arg: Option<&str>) -> (r: Role)
    ensures
        r == role_for(match arg {
            Some(a) => Some(a@),
            None => None,
        }),
        r == Role::Server <==> (arg is None || arg->0@ == "server"@),
        r == Role::Client <==> (arg is Some && arg->0@ == "client"@),
        r == Role::Unknown <==> (arg is Some && arg->0@ != "server"@ && arg->0@ != "client"@),
{
    proof {
        law_role_for(
            match arg {
                Some(a) => Some(a@),
                None => None,
            },
        );
    }
    match arg {
        None => Role::Server,
        Some(a) => {
            let given = String::from_str(a);
            if given.eq(&String::from_str("server")) {
                Role::Server
            } else if given.eq(&String::from_str("client")) {
                Role::Client
            } else {
                Role::Unknown
            }
        },
    }
}

/// The name under which the client prints an event of wire type `code`:
/// type 0 is a creation, any other a deletion.
pub fn event_label(code: i32) -> (label: &'static str)
    ensures
        label@ == (if code == 0 {
            "Created"@
        } else {
            "Deleted"@
        }),
{
    if code == 0 {
        "Created"
    } else {
        "Deleted"
    }
}

} // verus!
