//! Configuration data: what the process needs to serve a story.
//!
//! The values are decoded from a configuration file at the program's edge
//! and handed in as plain strings; assembling the database connection URL
//! from them is the one piece of logic and is verified here.

use vstd::prelude::*;

use crate::session::dec_str;
use crate::text::{chars_of, push_range, string_of};

verus! {

/// Connection parameters of the persistence engine.
pub struct DatabaseArgs {
    pub host: String,
    pub port: Option<u16>,
    pub username: String,
    pub password: String,
    pub database: String,
}

/// The process configuration: where the story text lives, the transport
/// credential, and the database connection parameters.
pub struct ConfigDocument {
    pub story_file: String,
    pub discord_bot_token: String,
    pub database: DatabaseArgs,
}

/// The connection URL the database arguments denote: host and credentials,
/// the port when one is given, and the database name.
pub open spec fn db_url_of(
    username: Seq<char>,
    password: Seq<char>,
    host: Seq<char>,
    port: Option<u16>,
    database: Seq<char>,
) -> Seq<char> {
    let head = "postgres://"@ + username + seq![':'] + password + seq!['@'] + host;
    let with_port = match port {
        Some(p) => head + seq![':'] + dec_str(p as nat),
        None => head,
    };
    with_port + seq!['/'] + database
}

/// Assembles the database connection URL from the configuration.
pub fn db_url(config: &ConfigDocument) -> (url: String)
    ensures
        url@ == db_url_of(
            config.database.username@,
            config.database.password@,
            config.database.host@,
            config.database.port,
            config.database.database@,
        ),
{
    let mut v = chars_of("postgres://");
    let user = chars_of(config.database.username.as_str());
    push_range(&mut v, &user, 0, user.len());
    v.push(':');
    let pass = chars_of(config.database.password.as_str());
    push_range(&mut v, &pass, 0, pass.len());
    v.push('@');
    let host = chars_of(config.database.host.as_str());
    push_range(&mut v, &host, 0, host.len());
    if let Some(p) = config.database.port {
        v.push(':');
        let digits = crate::session::dec_of_u64(p as u64);
        push_range(&mut v, &digits, 0, digits.len());
    }
    v.push('/');
    let db = chars_of(config.database.database.as_str());
    push_range(&mut v, &db, 0, db.len());
    proof {
        assert(user@.subrange(0, user@.len() as int) =~= user@);
        assert(pass@.subrange(0, pass@.len() as int) =~= pass@);
        assert(host@.subrange(0, host@.len() as int) =~= host@);
        assert(db@.subrange(0, db@.len() as int) =~= db@);
        assert(v@ =~= db_url_of(
            config.database.username@,
            config.database.password@,
            config.database.host@,
            config.database.port,
            config.database.database@,
        ));
    }
    string_of(&v)
}

} // verus!
