//! The collector's configuration, and what is derived from it: the database
//! connection string and the UDP ports and bind addresses of the sender pairs.

use vstd::prelude::*;
use crate::decimal::{push_decimal, spec_decimal};

verus! {

#[derive(Debug)]
pub struct Database {
    pub dbname: String,
    pub host: String,
    pub user: String,
    pub password: String,
}

#[derive(Debug)]
pub struct DataCollection {
    pub dc_actor_pairs: usize,
    pub retries: u8,
    pub wait_time_millis: u64,
    pub interval_seconds: u64,
    pub udp_bind_port: u32,
}

#[derive(Debug)]
pub struct Logger {
    pub file_path: String,
    pub log_level: String,
}

#[derive(Debug)]
pub struct Settings {
    pub debug: bool,
    pub database: Database,
    pub datacollection: DataCollection,
    pub logger: Logger,
}

/// The connection string of the database settings `db`.
pub open spec fn spec_connection_string(db: &Database) -> Seq<char> {
    "host="@ + db.host@ + " user="@ + db.user@ + " password="@ + db.password@ + " dbname="@
        + db.dbname@
}

/// Each setting stands verbatim in the connection string, after its keyword:
/// the host right after `host=`, the user after ` user=`, the password after
/// ` password=` and the database name after ` dbname=`, which ends the string.
pub proof fn lemma_connection_string_fields(db: &Database)
    ensures
        ({
            let s = spec_connection_string(db);
            let h = db.host@.len() as int;
            let u = db.user@.len() as int;
            let p = db.password@.len() as int;
            let d = db.dbname@.len() as int;
            let pu = 5 + h + 6;
            let pp = pu + u + 10;
            let pd = pp + p + 8;
            &&& s.len() == pd + d
            &&& s.subrange(0, 5) == "host="@
            &&& s.subrange(5, 5 + h) == db.host@
            &&& s.subrange(5 + h, pu) == " user="@
            &&& s.subrange(pu, pu + u) == db.user@
            &&& s.subrange(pu + u, pp) == " password="@
            &&& s.subrange(pp, pp + p) == db.password@
            &&& s.subrange(pp + p, pd) == " dbname="@
            &&& s.subrange(pd, pd + d) == db.dbname@
        }),
{
    reveal_strlit("host=");
    reveal_strlit(" user=");
    reveal_strlit(" password=");
    reveal_strlit(" dbname=");
    let s = spec_connection_string(db);
    let h = db.host@.len() as int;
    let u = db.user@.len() as int;
    let p = db.password@.len() as int;
    let d = db.dbname@.len() as int;
    let pu = 5 + h + 6;
    let pp = pu + u + 10;
    let pd = pp + p + 8;
    assert(s.subrange(0, 5) =~= "host="@);
    assert(s.subrange(5, 5 + h) =~= db.host@);
    assert(s.subrange(5 + h, pu) =~= " user="@);
    assert(s.subrange(pu, pu + u) =~= db.user@);
    assert(s.subrange(pu + u, pp) =~= " password="@);
    assert(s.subrange(pp, pp + p) =~= db.password@);
    assert(s.subrange(pp + p, pd) =~= " dbname="@);
    assert(s.subrange(pd, pd + d) =~= db.dbname@);
}

impl Database {
    /// `host=<host> user=<user> password=<password> dbname=<dbname>`.
    pub fn connection_string(&self) -> (r: String)
        ensures
            r@ == spec_connection_string(self),
            r@ == "host="@ + self.host@ + " user="@ + self.user@ + " password="@ + self.password@
                + " dbname="@ + self.dbname@,
    {
        let mut s = String::from_str("host=");
        s.append(self.host.as_str());
        s.append(" user=");
        s.append(self.user.as_str());
        s.append(" password=");
        s.append(self.password.as_str());
        s.append(" dbname=");
        s.append(self.dbname.as_str());
        s
    }
}

impl DataCollection {
    /// The ports of the sender pairs fit in a `u32`.
    pub open spec fn ports_fit(&self) -> bool {
        self.udp_bind_port as int + self.dc_actor_pairs as int <= u32::MAX as int + 1
    }

    /// The UDP port of each sender pair: consecutive ports from
    /// `udp_bind_port`, one per pair.
    pub fn sender_ports(&self) -> (r: Vec<u32>)
        requires
            self.ports_fit(),
        ensures
            r@.len() == self.dc_actor_pairs,
            forall|i: int| 0 <= i < r@.len() ==> #[trigger] r@[i] == self.udp_bind_port + i,
    {
        let mut r: Vec<u32> = Vec::new();
        let n = self.dc_actor_pairs;
        for i in 0..n
            invariant
                n == self.dc_actor_pairs,
                self.ports_fit(),
                r@.len() == i,
                forall|k: int| 0 <= k < r@.len() ==> #[trigger] r@[k] == self.udp_bind_port + k,
        {
            r.push(self.udp_bind_port + i as u32);
        }
        r
    }
}

/// The address a sender pair binds to: all interfaces, port `port`.
pub fn bind_address(port: u32) -> (r: String)
    ensures
        r@ == "0.0.0.0:"@ + spec_decimal(port as nat),
{
    let mut s = String::from_str("0.0.0.0:");
    push_decimal(&mut s, port as u64);
    s
}

} // verus!
