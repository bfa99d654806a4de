//! Settings read from `config.toml`, and the PostgreSQL connection string
//! built from them.

use vstd::prelude::*;

verus! {

/// Path of the settings file.
pub const CONFIG_PATH: &'static str = "config.toml";

/// All settings.
pub struct Config {
    pub auth: Auth,
    pub keys: Keys,
    pub server: Server,
    pub database: Database,
}

/// Identification sent with HTTP requests.
pub struct Auth {
    pub user_agent: String,
}

/// API keys of the market-data services.
pub struct Keys {
    pub finnhub: String,
    pub mexc: String,
}

/// Where the database server listens.
pub struct Server {
    pub host: String,
    pub port: String,
}

/// Database name and credentials.
pub struct Database {
    pub name: String,
    pub username: String,
    pub password: String,
}

/// The libpq-style connection string
/// `host=.. port=.. user=.. dbname=.. password=..`.
pub open spec fn connection_spec(
    host: Seq<char>,
    port: Seq<char>,
    user: Seq<char>,
    dbname: Seq<char>,
    password: Seq<char>,
) -> Seq<char> {
    "host="@ + host + " port="@ + port + " user="@ + user + " dbname="@ + dbname + " password="@
        + password
}

/// The connection string lists each setting after its key, in the order
/// host, port, user, dbname, password, separated by single spaces, for every
/// value of every setting.
pub proof fn lemma_connection_string_layout(
    host: Seq<char>,
    port: Seq<char>,
    user: Seq<char>,
    dbname: Seq<char>,
    password: Seq<char>,
)
    ensures
        connection_spec(host, port, user, dbname, password) == "host="@ + host + " port="@ + port
            + " user="@ + user + " dbname="@ + dbname + " password="@ + password,
{
}

impl Config {
    /// The connection string for the configured server and database.
    pub fn connection_string(&self) -> (r: String)
        ensures
            r@ == connection_spec(
                self.server.host@,
                self.server.port@,
                self.database.username@,
                self.database.name@,
                self.database.password@,
            ),
        r@ == "host="@ + self.server.host@ + " port="@ + self.server.port@ + " user="@
            + self.database.username@ + " dbname="@ + self.database.name@ + " password="@
            + self.database.password@,
    {
        let mut s = String::new();
        s.append("host=");
        s.append(self.server.host.as_str());
        s.append(" port=");
        s.append(self.server.port.as_str());
        s.append(" user=");
        s.append(self.database.username.as_str());
        s.append(" dbname=");
        s.append(self.database.name.as_str());
        s.append(" password=");
        s.append(self.database.password.as_str());
        assert(s@ =~= connection_spec(
            self.server.host@,
            self.server.port@,
            self.database.username@,
            self.database.name@,
            self.database.password@,
        ));
        s
    }
}

} // verus!
