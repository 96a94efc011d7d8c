//! Where the storage of a deployment is found.

use vstd::prelude::*;
use vstd::string::StringExecFns;
use crate::text::{append_decimal, decimal_text};

verus! {

/// How to reach a database.
#[derive(Debug)]
pub struct DBConnectorConfig {
    pub id: String,
    pub password: String,
    pub ip_addr: String,
    pub port_number: u32,
    pub database: String,
}

/// The address of a MySQL database: `mysql://`, the user's id, `/`, the
/// password, `@`, the host, `:`, the port in decimal, `/`, the database's
/// name.
pub open spec fn mysql_url_text(
    id: Seq<char>,
    password: Seq<char>,
    ip_addr: Seq<char>,
    port_number: u32,
    database: Seq<char>,
) -> Seq<char> {
    "mysql://"@ + id + "/"@ + password + "@"@ + ip_addr + ":"@ + decimal_text(port_number as nat)
        + "/"@ + database
}

impl DBConnectorConfig {
    /// The address under which a MySQL client reaches the database.
    pub fn mysql_url(&self) -> (url: String)
        ensures
            url@ == mysql_url_text(
                self.id@,
                self.password@,
                self.ip_addr@,
                self.port_number,
                self.database@,
            ),
    {
        let mut url = String::from_str("mysql://");
        url.append(self.id.as_str());
        url.append("/");
        url.append(self.password.as_str());
        url.append("@");
        url.append(self.ip_addr.as_str());
        url.append(":");
        append_decimal(&mut url, self.port_number);
        url.append("/");
        url.append(self.database.as_str());
        url
    }
}

/// The kinds of storage.
#[derive(Debug)]
pub enum DBConnector {
    DBLocal { db_config: DBConnectorConfig },
    DBMysql { db_config: DBConnectorConfig },
}

impl DBConnector {
    pub fn create_local(db_config: DBConnectorConfig) -> (connector: Self)
        ensures
            connector == (DBConnector::DBLocal { db_config }),
    {
        DBConnector::DBLocal { db_config }
    }

    pub fn create_mysql(db_config: DBConnectorConfig) -> (connector: Self)
        ensures
            connector == (DBConnector::DBMysql { db_config }),
    {
        DBConnector::DBMysql { db_config }
    }

    /// Does nothing: a connector holds no connection.
    pub fn connect_database(&self) {
    }
}

} // verus!
