//! Reversible short identifiers for numeric ids and API keys, and the rules
//! of a small game backend around them: asset whitelisting, API keys and bans.
use vstd::prelude::*;

pub mod api_keys;
pub mod id_converter;
pub mod moderation;
pub mod numeral;
pub mod roblox;
pub mod scene;
pub mod utils;

use crate::id_converter::{
    alphabet_ok, all_in, decimal_text, decodes_to_u128, number_of, parse_u64, short_of,
    unsigned_numeral, CodecError, IDConverter,
};
use crate::roblox::{RobloxWrapper, COOKIE_PREFIX};

verus! {

/// A connection pool to a document store.
#[verifier::external_type_specification]
#[verifier::external_body]
pub struct ExClient(mongodb::Client);

/// A database of a document store.
#[verifier::external_type_specification]
#[verifier::external_body]
pub struct ExDatabase(mongodb::Database);

/// A parsed Luau source file.
#[verifier::external_type_specification]
#[verifier::external_body]
pub struct ExAst(full_moon::ast::Ast);

/// Why a Luau source file could not be parsed.
#[verifier::external_type_specification]
#[verifier::external_body]
pub struct ExLuauError(full_moon::Error);

/// Relies on `mongodb::Client::default_database`: the database that the
/// connection string names, if it names one.
pub assume_specification[ mongodb::Client::default_database ](
    client: &mongodb::Client,
) -> Option<mongodb::Database>;

/// Whether Luau source text parses.
pub uninterp spec fn luau_parses(code: Seq<char>) -> bool;

/// Relies on `full_moon::parse`: tokenizes and parses Luau source text;
/// whether it succeeds depends on the text alone. With full_moon's `stacker`
/// feature, deep nesting grows the stack on the heap instead of overflowing it.
pub assume_specification[ full_moon::parse ](code: &str) -> (r: Result<
    full_moon::ast::Ast,
    full_moon::Error,
>)
    ensures
        r is Ok <==> luau_parses(code@),
;

/// Why a backend operation failed.
#[derive(Clone, Copy, Debug, PartialEq, Eq, Structural)]
pub enum BackendError {
    /// The identifier codec refused the value.
    Codec(CodecError),
    /// A numeric id is not an unsigned integer literal that fits in a `u64`.
    InvalidId,
    /// No document store client has been attached.
    DatabaseNotConnected,
    /// The document store's connection string names no default database.
    NoDefaultDatabase,
    /// Luau source text does not parse.
    LuauSyntax,
}

/// The backend: a marketplace session, the identifier codec and, once
/// attached, a document store client.
pub struct Backend {
    rbx_client: RobloxWrapper,
    id_generator: IDConverter,
    mongo_client: Option<mongodb::Client>,
}

impl Backend {
    /// The identifier codec.
    pub closed spec fn generator(&self) -> IDConverter {
        self.id_generator
    }

    /// The marketplace session.
    pub closed spec fn session(&self) -> RobloxWrapper {
        self.rbx_client
    }

    /// Whether a document store client is attached.
    pub closed spec fn connected(&self) -> bool {
        self.mongo_client is Some
    }

    /// A backend with a marketplace session for `roblox_cookie` and an
    /// identifier codec over the first two alphabets given (symbols, then
    /// digits); not yet connected to a document store.
    pub fn new(roblox_cookie: String, id_generator_alphabets: Vec<String>) -> (r: Result<
        Backend,
        CodecError,
    >)
        ensures
            r is Ok <==> id_generator_alphabets.len() >= 2 && alphabet_ok(
                id_generator_alphabets@[0]@,
            ) && alphabet_ok(id_generator_alphabets@[1]@),
            r is Ok ==> r->Ok_0.generator().symbols() == id_generator_alphabets@[0]@
                && r->Ok_0.generator().digits() == id_generator_alphabets@[1]@
                && r->Ok_0.session().cookie_text() == COOKIE_PREFIX@ + roblox_cookie@
                && r->Ok_0.session().token_text() == Seq::<char>::empty() && !r->Ok_0.connected(),
            r is Err ==> r->Err_0 == CodecError::Configuration,
    {
        if id_generator_alphabets.len() < 2 {
            return Err(CodecError::Configuration);
        }
        let id_generator = IDConverter::new(&id_generator_alphabets[0], &id_generator_alphabets[1])?;
        let rbx_client = RobloxWrapper::new(roblox_cookie);
        Ok(Backend { rbx_client, id_generator, mongo_client: None })
    }

    /// Attaches a document store client.
    pub fn set_mongo_client(&mut self, client: mongodb::Client)
        ensures
            final(self).connected(),
            final(self).generator() == old(self).generator(),
            final(self).session() == old(self).session(),
    {
        self.mongo_client = Some(client);
    }

    /// The default database of the attached document store.
    pub fn get_database(&self) -> (r: Result<mongodb::Database, BackendError>)
        ensures
            !self.connected() ==> r is Err && r->Err_0 == BackendError::DatabaseNotConnected,
            self.connected() ==> r is Ok || r->Err_0 == BackendError::NoDefaultDatabase,
    {
        match &self.mongo_client {
            None => Err(BackendError::DatabaseNotConnected),
            Some(client) => match client.default_database() {
                Some(database) => Ok(database),
                None => Err(BackendError::NoDefaultDatabase),
            },
        }
    }

    /// The marketplace session.
    pub fn rbx_client(&self) -> (r: &RobloxWrapper)
        ensures
            *r == self.session(),
    {
        &self.rbx_client
    }

    /// Replaces the marketplace session's CSRF token.
    pub fn set_xcsrf_token(&mut self, token: String)
        ensures
            final(self).session().token_text() == token@,
            final(self).session().cookie_text() == old(self).session().cookie_text(),
            final(self).generator() == old(self).generator(),
            final(self).connected() == old(self).connected(),
    {
        self.rbx_client.set_xcsrf_token(token);
    }

    /// The short, shareable form of a numeric id given as text.
    pub fn get_shareable_id(&self, id: String) -> (r: Result<String, BackendError>)
        ensures
            ({
                let n = unsigned_numeral(id@);
                let symbols = self.generator().symbols();
                let digits = self.generator().digits();
                if n is Some && n->0 <= u64::MAX {
                    &&& r is Ok <==> all_in(decimal_text(n->0), digits)
                    &&& r is Ok ==> r->Ok_0@ == short_of(symbols, digits, n->0)
                    &&& r is Err ==> r->Err_0 == BackendError::Codec(CodecError::Encoding)
                } else {
                    r is Err && r->Err_0 == BackendError::InvalidId
                }
            }),
    {
        match parse_u64(id.as_str()) {
            Some(n) => match self.id_generator.to_short(n as u128) {
                Ok(short) => Ok(short),
                Err(e) => Err(BackendError::Codec(e)),
            },
            None => Err(BackendError::InvalidId),
        }
    }

    /// The numeric id that a shareable id stands for.
    pub fn get_number_id(&self, id: String) -> (r: Result<u128, CodecError>)
        ensures
            r is Ok <==> decodes_to_u128(self.generator().symbols(), self.generator().digits(), id@),
            r is Ok ==> r->Ok_0 == number_of(
                self.generator().symbols(),
                self.generator().digits(),
                id@,
            )->0,
            r is Err ==> r->Err_0 == CodecError::Decoding,
    {
        self.id_generator.to_number(id)
    }

    /// Parses Luau source text.
    pub fn luau_ast_from_string(&self, source: String) -> (r: Result<
        full_moon::ast::Ast,
        BackendError,
    >)
        ensures
            r is Ok <==> luau_parses(source@),
            r is Err ==> r->Err_0 == BackendError::LuauSyntax,
    {
        match full_moon::parse(source.as_str()) {
            Ok(ast) => Ok(ast),
            Err(_) => Err(BackendError::LuauSyntax),
        }
    }

    /// Looks for calls of global functions in a parsed source file; no
    /// usage is reported yet.
    pub fn luau_find_global_function_usage(&self, ast: &full_moon::ast::Ast) {
    }
}

} // verus!
