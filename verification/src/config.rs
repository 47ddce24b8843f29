use vstd::prelude::*;

use crate::text::{
    dec_body, dec_rep, dec_val, is_u16_numeral, parse_u16, push_decimal, split_csv, split_on,
    str_views,
};

verus! {

/// Why a configuration could not be assembled from its textual
/// parts.
#[derive(Clone, Copy, PartialEq, Eq, Structural, Debug)]
pub enum ConfigError {
    /// The port text is not a decimal number that fits a port.
    InvalidPort,
    /// The keep-count text is not a decimal number that fits
    /// sixteen bits.
    InvalidKeepCount,
}

/// The backup target for one cycle: where the server is, which
/// databases to take, where archives go, and how many to keep.
pub struct DatabaseConfig {
    pub db_host: String,
    pub db_port: u16,
    pub db_username: String,
    pub db_password: String,
    pub db_exports: Vec<String>,
    pub db_forgets: Vec<String>,
    pub db_folder: String,
    pub db_backup_file_time_format: String,
    pub db_keep_count: u16,
    pub db_zip_password: String,
}

impl DatabaseConfig {
    /// The connection address: scheme, credentials, host and port.
    pub open spec fn spec_mysql_url(&self) -> Seq<char> {
        "mysql://"@ + self.db_username@ + ":"@ + self.db_password@ + "@"@ + self.db_host@ + ":"@
            + dec_rep(self.db_port as int)
    }

    pub fn mysql_url(&self) -> (r: String)
        ensures
            r@ == self.spec_mysql_url(),
    {
        let mut s = String::from_str("mysql://");
        s.append(self.db_username.as_str());
        s.append(":");
        s.append(self.db_password.as_str());
        s.append("@");
        s.append(self.db_host.as_str());
        s.append(":");
        push_decimal(&mut s, self.db_port);
        proof {
            assert(s@ =~= self.spec_mysql_url());
        }
        s
    }

    /// Assembles a configuration from the textual form in which
    /// its settings arrive.  The export and forget lists are
    /// comma-separated; the port and the keep-count must be
    /// decimal numbers.
    pub fn from_parts(
        host: String,
        port_text: &str,
        username: String,
        password: String,
        exports_text: &str,
        forgets_text: &str,
        folder: String,
        time_format: String,
        keep_count_text: &str,
        zip_password: String,
    ) -> (r: Result<DatabaseConfig, ConfigError>)
        ensures
            r is Ok <==> is_u16_numeral(port_text@) && is_u16_numeral(keep_count_text@),
            r == Err::<DatabaseConfig, ConfigError>(ConfigError::InvalidPort) <==> !is_u16_numeral(
                port_text@,
            ),
            r == Err::<DatabaseConfig, ConfigError>(ConfigError::InvalidKeepCount)
                <==> is_u16_numeral(port_text@) && !is_u16_numeral(keep_count_text@),
            r is Ok ==> r->Ok_0.db_host@ == host@ && r->Ok_0.db_port as int == dec_val(
                dec_body(port_text@),
            ) && r->Ok_0.db_username@ == username@ && r->Ok_0.db_password@ == password@
                && str_views(r->Ok_0.db_exports@) == split_on(exports_text@, ',') && str_views(
                r->Ok_0.db_forgets@,
            ) == split_on(forgets_text@, ',') && r->Ok_0.db_folder@ == folder@
                && r->Ok_0.db_backup_file_time_format@ == time_format@ && r->Ok_0.db_keep_count
                as int == dec_val(dec_body(keep_count_text@)) && r->Ok_0.db_zip_password@
                == zip_password@,
    {
        let db_port = match parse_u16(port_text) {
            Some(p) => p,
            None => {
                return Err(ConfigError::InvalidPort);
            },
        };
        let db_keep_count = match parse_u16(keep_count_text) {
            Some(k) => k,
            None => {
                return Err(ConfigError::InvalidKeepCount);
            },
        };
        let db_exports = split_csv(exports_text);
        let db_forgets = split_csv(forgets_text);
        Ok(
            DatabaseConfig {
                db_host: host,
                db_port,
                db_username: username,
                db_password: password,
                db_exports,
                db_forgets,
                db_folder: folder,
                db_backup_file_time_format: time_format,
                db_keep_count,
                db_zip_password: zip_password,
            },
        )
    }
}

} // verus!
