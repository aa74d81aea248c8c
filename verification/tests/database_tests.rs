use aes::cipher::{BlockEncryptMut, KeyIvInit, block_padding::Pkcs7};
use rusqlite::types::ValueRef;
use rusqlite::Connection;
use rusqlite::types::ToSql;
use sha2::{Digest, Sha256};
use xcli::credentials::crypto::derive_key;
use xcli::credentials::database::{
    COOKIE_QUERY, Cell, CookieRow, META_QUERY, SqlError, StoredPair, TABLE_KIND_QUERY, check_meta, check_table_kind,
    database_error, schema_error, select_pair,
};
use xcli::error::{Error, Kind};

const PASSWORD: &[u8] = b"synthetic-password";
const NOW: i64 = 13_000_000_000_000_000;

fn schema(connection: &Connection) {
    connection
        .execute_batch(
            "CREATE TABLE meta(key LONGVARCHAR NOT NULL UNIQUE PRIMARY KEY, value LONGVARCHAR);
         INSERT INTO meta VALUES ('version','24'), ('last_compatible_version','24');
         CREATE TABLE cookies (
           host_key TEXT NOT NULL, name TEXT NOT NULL, value TEXT NOT NULL DEFAULT '',
           encrypted_value BLOB NOT NULL, path TEXT NOT NULL DEFAULT '/',
           top_frame_site_key TEXT NOT NULL DEFAULT '',
           has_cross_site_ancestor INTEGER NOT NULL DEFAULT 1,
           source_scheme INTEGER NOT NULL DEFAULT 2, source_port INTEGER NOT NULL DEFAULT 443,
           expires_utc INTEGER NOT NULL DEFAULT 0, has_expires INTEGER NOT NULL DEFAULT 0,
           is_persistent INTEGER NOT NULL DEFAULT 0, is_secure INTEGER NOT NULL DEFAULT 1
         );",
        )
        .unwrap();
}

fn encrypt_fixture(host: &str, value: &[u8], key: &[u8; 16]) -> Vec<u8> {
    let mut data = Sha256::digest(host.as_bytes()).to_vec();
    data.extend_from_slice(value);
    let len = data.len();
    data.resize(len + 16, 0);
    let iv = [b' '; 16];
    let encrypted = cbc::Encryptor::<aes::Aes128>::new(key.into(), (&iv).into())
        .encrypt_padded_mut::<Pkcs7>(&mut data, len)
        .unwrap();
    [b"v10".as_slice(), encrypted].concat()
}

fn insert(connection: &Connection, host: &str, name: &str, value: &[u8]) {
    let key = derive_key(PASSWORD).unwrap();
    let encrypted = encrypt_fixture(host, value, &key);
    connection
        .execute(
            "INSERT INTO cookies(host_key,name,encrypted_value) VALUES (?1,?2,?3)",
            [&host as &dyn ToSql, &name, &encrypted],
        )
        .unwrap();
}

fn pair(connection: &Connection, host: &str) {
    insert(connection, host, "auth_token", b"synthetic-auth");
    insert(connection, host, "ct0", b"synthetic-csrf");
}

fn fixture() -> Connection {
    let connection = Connection::open_in_memory().unwrap();
    schema(&connection);
    pair(&connection, ".x.com");
    connection
}

fn cell(value: ValueRef<'_>) -> Cell {
    match value {
        ValueRef::Null => Cell::Null,
        ValueRef::Integer(v) => Cell::Integer(v),
        ValueRef::Real(_) => Cell::Real,
        ValueRef::Text(t) => Cell::Text(t.to_vec()),
        ValueRef::Blob(b) => Cell::Blob(b.to_vec()),
    }
}

fn sql_error(error: &rusqlite::Error) -> SqlError {
    match error.sqlite_error_code() {
        Some(rusqlite::ErrorCode::DatabaseBusy | rusqlite::ErrorCode::DatabaseLocked) => SqlError::Busy,
        _ => SqlError::Other,
    }
}

/// Reads the schema, the version rows and the candidate cookie rows in one
/// transaction, handing every decision to the library.
fn read_transaction(connection: &mut Connection, now: i64) -> Result<StoredPair, Error> {
    let transaction = connection.transaction().map_err(|_| database_error())?;
    for name in ["meta", "cookies"] {
        let kind = transaction
            .query_row(TABLE_KIND_QUERY, [name], |r| r.get_ref(0).map(cell))
            .map_err(|e| sql_error(&e));
        check_table_kind(kind)?;
    }
    let meta: Vec<(Cell, Cell)> = {
        let mut statement = transaction.prepare(META_QUERY).map_err(|e| schema_error(sql_error(&e)))?;
        let mut rows = statement.query([]).map_err(|_| database_error())?;
        let mut read = Vec::new();
        while let Some(row) = rows.next().map_err(|_| database_error())? {
            read.push((row.get_ref(0).map(cell).unwrap(), row.get_ref(1).map(cell).unwrap()));
        }
        read
    };
    check_meta(&meta, false)?;
    let rows: Vec<CookieRow> = {
        let mut statement = transaction.prepare(COOKIE_QUERY).map_err(|e| schema_error(sql_error(&e)))?;
        let mut rows = statement.query([now]).map_err(|_| database_error())?;
        let mut read = Vec::new();
        while let Some(row) = rows.next().map_err(|_| database_error())? {
            let get = |i: usize| row.get_ref(i).map(cell).unwrap();
            read.push(CookieRow {
                host: get(0),
                name: get(1),
                value: get(2),
                encrypted: get(3),
                partition: get(4),
                ancestor: get(5),
                scheme: get(6),
                port: get(7),
            });
        }
        read
    };
    let pair = select_pair(&rows, false)?;
    transaction.commit().map_err(|_| database_error())?;
    Ok(pair)
}

fn result_kind(connection: &mut Connection) -> Kind {
    match read_transaction(connection, NOW) {
        Ok(_) => panic!("expected rejection"),
        Err(e) => e.kind,
    }
}

#[test]
fn synthetic_schema24_pair_decrypts_with_real_ancestor_default() {
    for host in [".x.com", "x.com"] {
        let mut connection = Connection::open_in_memory().unwrap();
        schema(&connection);
        pair(&connection, host);
        let pair = read_transaction(&mut connection, NOW).unwrap();
        let session = pair.decrypt(PASSWORD).unwrap();
        assert_eq!(&*session.headers()[0].1, "auth_token=synthetic-auth; ct0=synthetic-csrf");
    }
}

#[test]
fn reject_older_future_malformed_and_incompatible_versions() {
    for version in ["23", "25", "0", "24junk", "024"] {
        let mut connection = fixture();
        connection.execute("UPDATE meta SET value=?1 WHERE key='version'", [version]).unwrap();
        assert_eq!(result_kind(&mut connection), Kind::Unsupported);
    }
    let mut connection = fixture();
    connection.execute("UPDATE meta SET value='23' WHERE key='last_compatible_version'", []).unwrap();
    assert_eq!(result_kind(&mut connection), Kind::Unsupported);
    connection.execute("DELETE FROM meta", []).unwrap();
    assert_eq!(result_kind(&mut connection), Kind::Unsupported);
}

#[test]
fn reject_domain_mixing_duplicates_and_additional_jars() {
    for sql in [
        "UPDATE cookies SET host_key='x.com' WHERE name='ct0'",
        "UPDATE cookies SET name='ct0' WHERE name='auth_token'",
        "INSERT INTO cookies SELECT * FROM cookies",
    ] {
        let mut connection = fixture();
        connection.execute_batch(sql).unwrap();
        assert_eq!(result_kind(&mut connection), Kind::Authentication);
    }
    let mut connection = fixture();
    pair(&connection, "x.com");
    assert_eq!(result_kind(&mut connection), Kind::Authentication);
}

#[test]
fn irrelevant_cookies_are_not_loaded() {
    let mut connection = fixture();
    for host in [".twitter.com", ".evilx.com", ".x.com.evil", "api.x.com"] {
        pair(&connection, host);
    }
    insert(&connection, ".x.com", "unrelated", b"ignored");
    connection
        .execute(
            "UPDATE cookies SET encrypted_value=x'763230' WHERE host_key!='.x.com' OR name='unrelated'",
            [],
        )
        .unwrap();
    assert!(read_transaction(&mut connection, NOW).is_ok());
}

#[test]
fn expiry_security_and_root_path_are_enforced() {
    for sql in [
        "UPDATE cookies SET has_expires=1,is_persistent=1,expires_utc=13000000000000000",
        "UPDATE cookies SET has_expires=1,is_persistent=1,expires_utc=12999999999999999",
        "UPDATE cookies SET expires_utc=-1",
        "UPDATE cookies SET has_expires=1,is_persistent=1,expires_utc='not-a-time'",
        "UPDATE cookies SET has_expires=1,is_persistent=1,expires_utc=1.0e100",
        "UPDATE cookies SET has_expires=1",
        "UPDATE cookies SET is_secure=0",
        "UPDATE cookies SET path='/i/api'",
    ] {
        let mut connection = fixture();
        connection.execute_batch(sql).unwrap();
        assert_eq!(result_kind(&mut connection), Kind::Authentication);
    }
    let mut connection = fixture();
    connection
        .execute_batch("UPDATE cookies SET has_expires=1,is_persistent=1,expires_utc=13000000000000001")
        .unwrap();
    assert!(read_transaction(&mut connection, NOW).is_ok());
}

#[test]
fn reject_partition_plaintext_mixed_unknown_and_oversize_storage() {
    for sql in [
        "UPDATE cookies SET top_frame_site_key='https://x.com'",
        "UPDATE cookies SET has_cross_site_ancestor=2",
        "UPDATE cookies SET source_scheme=1",
        "UPDATE cookies SET source_port=8443",
        "UPDATE cookies SET value='synthetic-plaintext'",
        "UPDATE cookies SET value=char(0)||'hidden'",
        "UPDATE cookies SET encrypted_value=x'76323000000000000000000000000000000000'",
        "UPDATE cookies SET encrypted_value=x''",
        "UPDATE cookies SET encrypted_value=zeroblob(9999)",
    ] {
        let mut connection = fixture();
        connection.execute_batch(sql).unwrap();
        assert_eq!(result_kind(&mut connection), Kind::Unsupported);
    }
    let mut connection = fixture();
    connection.execute_batch("UPDATE cookies SET has_cross_site_ancestor=0").unwrap();
    assert!(read_transaction(&mut connection, NOW).is_ok());
}

#[test]
fn malformed_schema_views_and_partition_conflicts_fail_closed() {
    for sql in [
        "ALTER TABLE cookies DROP COLUMN source_scheme",
        "ALTER TABLE cookies RENAME TO original; CREATE VIEW cookies AS SELECT * FROM original",
        "ALTER TABLE meta RENAME TO original; CREATE VIEW meta AS SELECT * FROM original",
    ] {
        let mut connection = fixture();
        connection.execute_batch(sql).unwrap();
        assert_eq!(result_kind(&mut connection), Kind::Unsupported);
    }
    let mut connection = fixture();
    insert(&connection, ".x.com", "ct0", b"other-synthetic-csrf");
    connection
        .execute("UPDATE cookies SET top_frame_site_key='https://example.com' WHERE rowid=3", [])
        .unwrap();
    assert!(read_transaction(&mut connection, NOW).is_err());
}
