//! The command line of the widget container: homeserver, user, password and
//! the room in which the widget runs.

use vstd::prelude::*;

verus! {

/// What the container is started with.
#[derive(Debug)]
pub struct Args {
    pub homeserver_url: String,
    pub username: String,
    pub password: String,
    pub room_id: String,
}

/// The usage line printed when arguments are missing; `program` is the name
/// the program was started under.
pub open spec fn usage_text(program: Seq<char>) -> Seq<char> {
    "Usage: "@ + program + " <homeserver_url> <username> <password> <room_id>"@
}

/// Reads the four arguments that follow the program name in `argv`; further
/// arguments are ignored. With fewer than four, the result is the usage line.
pub fn get_args(argv: &Vec<String>) -> (r: Result<Args, String>)
    requires
        argv.len() >= 1,
    ensures
        r is Ok <==> argv.len() >= 5,
        r matches Ok(args) ==> {
            &&& args.homeserver_url == argv[1]
            &&& args.username == argv[2]
            &&& args.password == argv[3]
            &&& args.room_id == argv[4]
        },
        r matches Err(usage) ==> usage@ == usage_text(argv[0]@),
{
    if argv.len() >= 5 {
        Ok(Args {
            homeserver_url: argv[1].clone(),
            username: argv[2].clone(),
            password: argv[3].clone(),
            room_id: argv[4].clone(),
        })
    } else {
        let mut usage = String::new();
        usage.append("Usage: ");
        usage.append(argv[0].as_str());
        usage.append(" <homeserver_url> <username> <password> <room_id>");
        Err(usage)
    }
}

} // verus!
