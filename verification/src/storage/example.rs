//! A complete example application over the storage system: a customer
//! store with typed tables and JSON serialization.

use vstd::prelude::*;
use crate::storage::codec::{JsonSerializer, ValueSerializer};
use crate::storage::error::StorageError;
use crate::storage::json;
use crate::storage::record::{kind_of, FieldKind, FieldV, FieldValue, Record, RecordV, Schema, SchemaV};
use crate::storage::redb_backend::{store_contains, store_lookup, store_put, store_remove, RedbBackend, StoreContents};
use crate::storage::typed_table::TypedTable;

verus! {

/// A customer on file.
#[derive(Debug, Clone, PartialEq)]
pub struct Customer {
    /// Unique customer id; the table key.
    pub id: u64,
    /// Display name.
    pub name: String,
    /// Contact address.
    pub email: String,
    /// Creation time, as a Unix timestamp.
    pub created_at: u64,
    /// Whether the customer is active.
    pub active: bool,
}

/// Spec-level view of a customer.
pub struct CustomerV {
    /// Unique customer id.
    pub id: u64,
    /// Display name.
    pub name: Seq<char>,
    /// Contact address.
    pub email: Seq<char>,
    /// Creation time.
    pub created_at: u64,
    /// Whether the customer is active.
    pub active: bool,
}

impl View for Customer {
    type V = CustomerV;

    open spec fn view(&self) -> CustomerV {
        CustomerV {
            id: self.id,
            name: self.name@,
            email: self.email@,
            created_at: self.created_at,
            active: self.active,
        }
    }
}

/// The record a customer serializes as.
pub open spec fn customer_record(c: CustomerV) -> RecordV {
    seq![
        ("id"@, FieldV::U64(c.id)),
        ("name"@, FieldV::Text(c.name)),
        ("email"@, FieldV::Text(c.email)),
        ("created_at"@, FieldV::U64(c.created_at)),
        ("active"@, FieldV::Bool(c.active)),
    ]
}

/// The schema a stored customer must parse against.
pub open spec fn customer_schema() -> SchemaV {
    seq![
        ("id"@, FieldKind::U64),
        ("name"@, FieldKind::Text),
        ("email"@, FieldKind::Text),
        ("created_at"@, FieldKind::U64),
        ("active"@, FieldKind::Bool),
    ]
}

/// Build the customer schema at run time.
fn build_customer_schema() -> (r: Schema)
    ensures
        r@ == customer_schema(),
{
    let mut schema = Schema::new();
    schema.push_field("id", FieldKind::U64);
    schema.push_field("name", FieldKind::Text);
    schema.push_field("email", FieldKind::Text);
    schema.push_field("created_at", FieldKind::U64);
    schema.push_field("active", FieldKind::Bool);
    proof {
        assert(schema@ =~= customer_schema());
    }
    schema
}

/// A customer's record matches the customer schema.
pub proof fn lemma_customer_record_matches(c: CustomerV)
    ensures
        json::jdec_record(
            customer_schema(),
            json::spec_enc_record(customer_record(c)),
            0,
        ) == Some(
            (
                customer_record(c),
                json::spec_enc_record(customer_record(c)).len() as int,
            ),
        ),
{
    let rec = customer_record(c);
    let schema = customer_schema();
    assert(crate::storage::record::record_matches(schema, rec)) by {
        assert(rec.len() == schema.len());
        assert(rec[0].0 == schema[0].0 && kind_of(rec[0].1) == schema[0].1);
        assert(rec[1].0 == schema[1].0 && kind_of(rec[1].1) == schema[1].1);
        assert(rec[2].0 == schema[2].0 && kind_of(rec[2].1) == schema[2].1);
        assert(rec[3].0 == schema[3].0 && kind_of(rec[3].1) == schema[3].1);
        assert(rec[4].0 == schema[4].0 && kind_of(rec[4].1) == schema[4].1);
    }
    json::lemma_json_round_trip(schema, rec);
}

impl ValueSerializer<Customer> for JsonSerializer {
    /// The canonical JSON object of the customer's fields.
    open spec fn spec_serialize(&self, v: Customer) -> Option<Seq<u8>> {
        Some(json::spec_enc_record(customer_record(v@)))
    }

    open spec fn spec_deserializable(&self, bytes: Seq<u8>) -> bool {
        json::jdec_record(customer_schema(), bytes, 0) matches Some(p) && p.1 == bytes.len()
    }

    open spec fn spec_deserializes_to(&self, bytes: Seq<u8>, v: Customer) -> bool {
        json::jdec_record(customer_schema(), bytes, 0) == Some(
            (customer_record(v@), bytes.len() as int),
        )
    }

    fn serialize(&self, value: &Customer) -> (r: Result<Vec<u8>, StorageError>) {
        let mut rec = Record::new();
        rec.push_field("id", FieldValue::U64(value.id));
        rec.push_field("name", FieldValue::Text(value.name.clone()));
        rec.push_field("email", FieldValue::Text(value.email.clone()));
        rec.push_field("created_at", FieldValue::U64(value.created_at));
        rec.push_field("active", FieldValue::Bool(value.active));
        proof {
            assert(rec@ =~= customer_record(value@));
        }
        Ok(json::enc_record(&rec))
    }

    fn deserialize(&self, bytes: &[u8]) -> (r: Result<Customer, StorageError>) {
        let schema = build_customer_schema();
        let (rec, end) = match json::parse_record(&schema, bytes, 0) {
            Some(p) => p,
            None => {
                return Err(
                    StorageError::Deserialization("Malformed customer record".to_owned()),
                );
            },
        };
        if end != bytes.len() {
            return Err(
                StorageError::Deserialization("Trailing bytes after customer record".to_owned()),
            );
        }
        proof {
            json::lemma_jdec_record_matches(customer_schema(), bytes@, 0);
            assert(crate::storage::record::record_matches(customer_schema(), rec@));
            assert(kind_of(rec@[0].1) == FieldKind::U64);
            assert(kind_of(rec@[1].1) == FieldKind::Text);
            assert(kind_of(rec@[2].1) == FieldKind::Text);
            assert(kind_of(rec@[3].1) == FieldKind::U64);
            assert(kind_of(rec@[4].1) == FieldKind::Bool);
        }
        let id: u64 = match &rec.fields[0].1 {
            FieldValue::U64(x) => *x,
            _ => {
                proof {
                    assert(false);
                }
                0
            },
        };
        let name: String = match &rec.fields[1].1 {
            FieldValue::Text(t) => t.clone(),
            _ => {
                proof {
                    assert(false);
                }
                String::new()
            },
        };
        let email: String = match &rec.fields[2].1 {
            FieldValue::Text(t) => t.clone(),
            _ => {
                proof {
                    assert(false);
                }
                String::new()
            },
        };
        let created_at: u64 = match &rec.fields[3].1 {
            FieldValue::U64(x) => *x,
            _ => {
                proof {
                    assert(false);
                }
                0
            },
        };
        let active: bool = match &rec.fields[4].1 {
            FieldValue::Bool(b) => *b,
            _ => {
                proof {
                    assert(false);
                }
                false
            },
        };
        let customer = Customer { id, name, email, created_at, active };
        proof {
            assert(customer_record(customer@) =~= rec@);
        }
        Ok(customer)
    }

    proof fn lemma_round_trip(&self, v: Customer) {
        lemma_customer_record_matches(v@);
    }

    proof fn lemma_deserialize_exact(&self, bytes: Seq<u8>, v: Customer) {
        json::lemma_jdec_record_exact(customer_schema(), bytes, 0);
        assert(bytes.subrange(0, bytes.len() as int) =~= bytes);
    }

    proof fn lemma_deserialize_unique(&self, bytes: Seq<u8>, v1: Customer, v2: Customer) {
        let r1 = customer_record(v1@);
        let r2 = customer_record(v2@);
        assert(r1 == r2);
        assert(r1[0] == r2[0] && r1[1] == r2[1] && r1[2] == r2[2] && r1[3] == r2[3] && r1[4]
            == r2[4]);
        assert(v1@ == v2@);
    }
}

/// An application-level store over typed tables: customers by id,
/// settings by name, all JSON-encoded in one database.
pub struct CustomerStore {
    db: RedbBackend,
}

impl View for CustomerStore {
    type V = StoreContents;

    closed spec fn view(&self) -> StoreContents {
        self.db@
    }
}

impl CustomerStore {
    /// Open (or create) a store at the given path.
    pub fn new(db_path: &str) -> (r: Result<Self, StorageError>) {
        let db = RedbBackend::new(db_path)?;
        Ok(CustomerStore { db })
    }

    /// Open an existing store at the given path.
    pub fn open(db_path: &str) -> (r: Result<Self, StorageError>) {
        let db = RedbBackend::open(db_path)?;
        Ok(CustomerStore { db })
    }

    /// Insert or update a customer under its id.
    pub fn add_customer(&mut self, customer: &Customer) -> (r: Result<(), StorageError>)
        ensures
            r is Ok ==> final(self)@ == store_put(
                old(self)@,
                "customers"@,
                vstd::bytes::spec_u64_to_le_bytes(customer.id),
                json::spec_enc_record(customer_record(customer@)),
            ),
    {
        let customers: TypedTable<u64, Customer, JsonSerializer> = TypedTable::new(
            "customers",
            JsonSerializer,
        );
        customers.set(&mut self.db, &customer.id, customer)
    }

    /// Look a customer up by id; `None` when the id is absent.  The
    /// returned customer is exactly what the stored bytes parse to.
    pub fn get_customer(&self, id: u64) -> (r: Result<Option<Customer>, StorageError>)
        ensures
            match r {
                Ok(found) => match found {
                    Some(c) => store_lookup(
                        self@,
                        "customers"@,
                        vstd::bytes::spec_u64_to_le_bytes(id),
                    ) == Some(json::spec_enc_record(customer_record(c@))),
                    None => self@.contains_key("customers"@) && store_lookup(
                        self@,
                        "customers"@,
                        vstd::bytes::spec_u64_to_le_bytes(id),
                    ) is None,
                },
                Err(_) => true,
            },
    {
        let customers: TypedTable<u64, Customer, JsonSerializer> = TypedTable::new(
            "customers",
            JsonSerializer,
        );
        let found = customers.get(&self.db, &id)?;
        proof {
            if found is Some {
                let stored = store_lookup(
                    self@,
                    "customers"@,
                    vstd::bytes::spec_u64_to_le_bytes(id),
                )->0;
                JsonSerializer.lemma_deserialize_exact(stored, found->0);
            }
        }
        Ok(found)
    }

    /// Update a customer in place: the same write as `add_customer`.
    pub fn update_customer(&mut self, customer: &Customer) -> (r: Result<(), StorageError>)
        ensures
            r is Ok ==> final(self)@ == store_put(
                old(self)@,
                "customers"@,
                vstd::bytes::spec_u64_to_le_bytes(customer.id),
                json::spec_enc_record(customer_record(customer@)),
            ),
    {
        self.add_customer(customer)
    }

    /// Remove a customer by id; reports whether the id was present.
    pub fn remove_customer(&mut self, id: u64) -> (r: Result<bool, StorageError>)
        ensures
            r is Ok ==> r->Ok_0 == store_contains(
                old(self)@,
                "customers"@,
                vstd::bytes::spec_u64_to_le_bytes(id),
            ) && final(self)@ == store_remove(
                old(self)@,
                "customers"@,
                vstd::bytes::spec_u64_to_le_bytes(id),
            ),
    {
        let customers: TypedTable<u64, Customer, JsonSerializer> = TypedTable::new(
            "customers",
            JsonSerializer,
        );
        customers.remove(&mut self.db, &id)
    }

    /// Write a settings entry under a string key.
    pub fn set_setting(&mut self, key: &str, value: &str) -> (r: Result<(), StorageError>)
        ensures
            r is Ok ==> final(self)@ == store_put(
                old(self)@,
                "settings"@,
                vstd::utf8::encode_utf8(key@),
                json::spec_enc_str(value@),
            ),
    {
        let settings: TypedTable<String, String, JsonSerializer> = TypedTable::new(
            "settings",
            JsonSerializer,
        );
        settings.set(&mut self.db, &key.to_owned(), &value.to_owned())
    }

    /// Read a settings entry; `None` when the key is absent.
    pub fn get_setting(&self, key: &str) -> (r: Result<Option<String>, StorageError>)
        ensures
            match r {
                Ok(found) => match found {
                    Some(v) => store_lookup(
                        self@,
                        "settings"@,
                        vstd::utf8::encode_utf8(key@),
                    ) == Some(json::spec_enc_str(v@)),
                    None => self@.contains_key("settings"@) && store_lookup(
                        self@,
                        "settings"@,
                        vstd::utf8::encode_utf8(key@),
                    ) is None,
                },
                Err(_) => true,
            },
    {
        let settings: TypedTable<String, String, JsonSerializer> = TypedTable::new(
            "settings",
            JsonSerializer,
        );
        let found = settings.get(&self.db, &key.to_owned())?;
        proof {
            if found is Some {
                let stored = store_lookup(self@, "settings"@, vstd::utf8::encode_utf8(key@))->0;
                JsonSerializer.lemma_deserialize_exact(stored, found->0);
            }
        }
        Ok(found)
    }
}

} // verus!
