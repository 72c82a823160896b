//! Write-ahead transaction log. Transactions live in memory with exact
//! contracts — the log, a pending set and a content-hash index — and every
//! write is mirrored into a sled database for durability, behind trusted
//! wrappers. On startup the stored records are read back; a record is
//! accepted only when it decodes to a transaction that serializes to the
//! very bytes read, so recovered state is pinned by the codec's contract.

use vstd::prelude::*;
use crate::text::{
    all_digits, chars_to_string, dec_seq, dec_val, parse_u64_range, push_dec, string_to_chars,
    spec_is_digit, u64_to_dec_string, hex_seq,
};
use crate::reference_resolver::string_eq;
use crate::logseq::{lemma_run_end_from, run_end};
use crate::utils::{new_uuid, now_millis};

verus! {

/// Errors of the transaction log.
#[derive(Debug)]
pub enum TransactionLogError {
    SledError(String),
    SerializationError(String),
    TransactionNotFound(String),
    InvalidStateTransition(String),
}

/// Lifecycle state of a transaction; transitions are one-shot, away from
/// `Active` only.
#[derive(Clone, Copy, PartialEq, Eq, Structural, Debug)]
pub enum TransactionState {
    Active,
    Committed,
    Aborted,
}

/// The unit logged: a mutation of the knowledge graph.
pub enum Operation {
    CreateNode { node_type: String, content: String, temp_id: Option<String> },
    UpdateNode { node_id: String, content: String },
    DeleteNode { node_id: String },
}

/// A logged transaction.
pub struct Transaction {
    pub id: String,
    pub operation: Operation,
    pub state: TransactionState,
    /// Unix milliseconds.
    pub created_at: u64,
    pub updated_at: u64,
    /// Set for operations that carry content.
    pub content_hash: Option<String>,
    /// Set when the transaction was aborted.
    pub error_message: Option<String>,
}

// ---------------------------------------------------------------------
// Content hashing
// ---------------------------------------------------------------------
/// One step of the folding hash: mix a character in and multiply.
pub open spec fn fnv_step(h: u64, c: char) -> u64 {
    (h ^ ((c as u32) as u64)).wrapping_mul(0x100000001b3u64)
}

/// The folding hash of a character sequence (FNV-1a over code points).
pub open spec fn fnv64_of(s: Seq<char>) -> u64
    decreases s.len(),
{
    if s.len() == 0 {
        0xcbf29ce484222325u64
    } else {
        fnv_step(fnv64_of(s.drop_last()), s.last())
    }
}

/// The content hash as text: the hexadecimal digits of the folded hash.
pub open spec fn content_hash_of(s: Seq<char>) -> Seq<char> {
    hex_seq(fnv64_of(s))
}

/// Compute the deterministic fingerprint of a piece of content, used for
/// in-flight deduplication. The fingerprint scheme is fixed by this
/// library alone; fingerprints written by other tools are not comparable.
pub fn compute_content_hash(content: &str) -> (r: String)
    ensures
        r@ == content_hash_of(content@),
{
    let chars = string_to_chars(content);
    let mut h: u64 = 0xcbf29ce484222325u64;
    let mut i: usize = 0;
    while i < chars.len()
        invariant
            0 <= i <= chars@.len(),
            chars@ == content@,
            h == fnv64_of(content@.take(i as int)),
        decreases chars@.len() - i,
    {
        proof {
            assert(content@.take(i as int + 1).drop_last() =~= content@.take(i as int));
            assert(content@.take(i as int + 1).last() == content@[i as int]);
        }
        let c = chars[i];
        h = (h ^ ((c as u32) as u64)).wrapping_mul(0x100000001b3u64);
        i = i + 1;
    }
    proof {
        assert(content@.take(content@.len() as int) =~= content@);
    }
    let mut out: Vec<char> = Vec::new();
    crate::text::push_hex(h, &mut out);
    chars_to_string(&out)
}

impl Transaction {
    /// Build a fresh transaction for an operation: a new identifier,
    /// `Active` state, both timestamps now, and the content hash when the
    /// operation carries content.
    pub fn new(operation: Operation) -> (t: Transaction)
        ensures
            t.state == TransactionState::Active,
            t.operation == operation,
            t.error_message is None,
            t.created_at == t.updated_at,
            t.id@.len() == 36,
            tx_hash_ok(&t),
    {
        let now_signed = now_millis();
        let now: u64 = if now_signed >= 0 {
            now_signed as u64
        } else {
            0
        };
        let content_hash: Option<String> = match &operation {
            Operation::CreateNode { content, .. } => Some(compute_content_hash(content.as_str())),
            Operation::UpdateNode { content, .. } => Some(compute_content_hash(content.as_str())),
            Operation::DeleteNode { .. } => None,
        };
        Transaction {
            id: new_uuid(),
            operation,
            state: TransactionState::Active,
            created_at: now,
            updated_at: now,
            content_hash,
            error_message: None,
        }
    }
}

/// The transaction's hash agrees with its operation: present with the
/// content's fingerprint exactly when the operation carries content.
pub open spec fn tx_hash_ok(t: &Transaction) -> bool {
    match t.operation {
        Operation::CreateNode { content, .. } => t.content_hash matches Some(hs) && hs@
            == content_hash_of(content@),
        Operation::UpdateNode { content, .. } => t.content_hash matches Some(hs) && hs@
            == content_hash_of(content@),
        Operation::DeleteNode { .. } => t.content_hash is None,
    }
}

// ---------------------------------------------------------------------
// Record codec
// ---------------------------------------------------------------------
/// A length-prefixed field: the decimal length, a colon, the characters.
pub open spec fn enc_str(s: Seq<char>) -> Seq<char> {
    dec_seq(s.len() as u64) + seq![':'] + s
}

/// An optional field: a flag field, then the value field when present.
pub open spec fn enc_opt(o: Option<String>) -> Seq<char> {
    match o {
        Some(s) => enc_str("1"@) + enc_str(s@),
        None => enc_str("0"@),
    }
}

/// The text of a state.
pub open spec fn state_name(s: TransactionState) -> Seq<char> {
    match s {
        TransactionState::Active => "active"@,
        TransactionState::Committed => "committed"@,
        TransactionState::Aborted => "aborted"@,
    }
}

/// The fields of an operation.
pub open spec fn enc_op(op: &Operation) -> Seq<char> {
    match op {
        Operation::CreateNode { node_type, content, temp_id } => enc_str("create"@) + enc_str(
            node_type@,
        ) + enc_str(content@) + enc_opt(*temp_id),
        Operation::UpdateNode { node_id, content } => enc_str("update"@) + enc_str(node_id@)
            + enc_str(content@),
        Operation::DeleteNode { node_id } => enc_str("delete"@) + enc_str(node_id@),
    }
}

/// The stored form of a transaction: its fields, length-prefixed, in a
/// fixed order.
pub open spec fn spec_encode_transaction(t: &Transaction) -> Seq<char> {
    enc_str(t.id@) + enc_str(state_name(t.state)) + enc_op(&t.operation) + enc_str(
        dec_seq(t.created_at),
    ) + enc_str(dec_seq(t.updated_at)) + enc_opt(t.content_hash) + enc_opt(t.error_message)
}

/// Appends one length-prefixed field.
fn push_field(out: &mut Vec<char>, s: &str)
    ensures
        final(out)@ == old(out)@ + enc_str(s@),
{
    let mut chars = string_to_chars(s);
    let n: u64 = chars.len() as u64;
    push_dec(n, out);
    out.push(':');
    let ghost before = out@;
    out.append(&mut chars);
    proof {
        assert(out@ =~= old(out)@ + enc_str(s@));
    }
}

/// Appends an optional field: the flag, then the value when present.
fn push_opt_field(out: &mut Vec<char>, o: &Option<String>)
    ensures
        final(out)@ == old(out)@ + enc_opt(*o),
{
    match o {
        Some(s) => {
            push_field(out, "1");
            push_field(out, s.as_str());
            proof {
                assert(out@ =~= old(out)@ + enc_opt(*o));
            }
        },
        None => {
            push_field(out, "0");
        },
    }
}

/// Serialize a transaction for the store.
#[verifier::rlimit(100)]
pub fn encode_transaction(t: &Transaction) -> (r: String)
    ensures
        r@ == spec_encode_transaction(t),
{
    let mut out: Vec<char> = Vec::new();
    push_field(&mut out, t.id.as_str());
    match t.state {
        TransactionState::Active => push_field(&mut out, "active"),
        TransactionState::Committed => push_field(&mut out, "committed"),
        TransactionState::Aborted => push_field(&mut out, "aborted"),
    }
    match &t.operation {
        Operation::CreateNode { node_type, content, temp_id } => {
            push_field(&mut out, "create");
            push_field(&mut out, node_type.as_str());
            push_field(&mut out, content.as_str());
            push_opt_field(&mut out, temp_id);
        },
        Operation::UpdateNode { node_id, content } => {
            push_field(&mut out, "update");
            push_field(&mut out, node_id.as_str());
            push_field(&mut out, content.as_str());
        },
        Operation::DeleteNode { node_id } => {
            push_field(&mut out, "delete");
            push_field(&mut out, node_id.as_str());
        },
    }
    let created = u64_to_dec_string(t.created_at);
    push_field(&mut out, created.as_str());
    let updated = u64_to_dec_string(t.updated_at);
    push_field(&mut out, updated.as_str());
    push_opt_field(&mut out, &t.content_hash);
    push_opt_field(&mut out, &t.error_message);
    proof {
        assert(out@ =~= spec_encode_transaction(t));
    }
    chars_to_string(&out)
}

/// Reads one length-prefixed field at `pos`: `Some` exactly when a
/// canonical decimal length, a colon and that many characters follow.
fn read_field(v: &Vec<char>, pos: usize) -> (r: Option<(String, usize)>)
    requires
        pos <= v@.len(),
    ensures
        match r {
            Some(p) => pos < p.1 <= v@.len() && v@.subrange(pos as int, p.1 as int) == enc_str(
                p.0@,
            ),
            None => true,
        },
{
    let ghost digitpred = |c: char| spec_is_digit(c);
    let n = v.len();
    let mut j = pos;
    while j < n && crate::text::is_digit(v[j])
        invariant
            pos <= j <= n,
            n == v@.len(),
            forall|k: int| pos <= k < j ==> spec_is_digit(#[trigger] v@[k]),
        decreases n - j,
    {
        j = j + 1;
    }
    if j == pos || j >= n {
        return None;
    }
    if v[j] != ':' {
        return None;
    }
    let len64: u64 = match parse_u64_range(v, pos, j) {
        Some(x) => x,
        None => {
            return None;
        },
    };
    // the length must be written canonically
    let mut canon: Vec<char> = Vec::new();
    push_dec(len64, &mut canon);
    if canon.len() != j - pos {
        return None;
    }
    let mut ci: usize = 0;
    while ci < canon.len()
        invariant
            0 <= ci <= canon@.len(),
            canon@.len() == j - pos,
            pos <= j <= v@.len(),
            forall|k: int| 0 <= k < ci ==> canon@[k] == v@[pos + k],
        decreases canon@.len() - ci,
    {
        if canon[ci] != v[pos + ci] {
            return None;
        }
        ci = ci + 1;
    }
    // the field body must fit
    let remaining = n - j - 1;
    if len64 > remaining as u64 {
        return None;
    }
    let body_len = len64 as usize;
    proof {
        assert(len64 <= remaining as u64);
        assert(body_len <= remaining);
        assert(j + 1 + body_len <= n);
    }
    let mut body: Vec<char> = Vec::new();
    let mut k = j + 1;
    while k < j + 1 + body_len
        invariant
            j + 1 <= k <= j + 1 + body_len,
            n == v@.len(),
            j + 1 + body_len <= n,
            body@ =~= v@.subrange(j as int + 1, k as int),
        decreases j + 1 + body_len - k,
    {
        body.push(v[k]);
        proof {
            assert(body@ =~= v@.subrange(j as int + 1, k as int + 1));
        }
        k = k + 1;
    }
    let np = j + 1 + body_len;
    proof {
        assert(canon@ == dec_seq(len64));
        assert(body@.len() == len64);
        assert forall|z: int| 0 <= z < canon@.len() implies v@.subrange(pos as int, np as int)[z]
            == dec_seq(body@.len() as u64)[z] by {
            assert(canon@[z] == v@[pos + z]);
        }
        assert(v@.subrange(pos as int, np as int) =~= enc_str(body@));
    }
    Some((chars_to_string(&body), np))
}

/// Reads an optional field.
fn read_opt_field(v: &Vec<char>, pos: usize) -> (r: Option<(Option<String>, usize)>)
    requires
        pos <= v@.len(),
    ensures
        match r {
            Some(p) => pos < p.1 <= v@.len() && v@.subrange(pos as int, p.1 as int) == enc_opt(
                p.0,
            ),
            None => true,
        },
{
    proof {
        reveal_strlit("0");
        reveal_strlit("1");
        assert("0"@.len() == 1);
        assert("1"@.len() == 1);
    }
    let (flag, p1) = match read_field(v, pos) {
        Some(x) => x,
        None => {
            return None;
        },
    };
    let one = "1".to_owned();
    let zero = "0".to_owned();
    if string_eq(&flag, &zero) {
        return Some((None, p1));
    }
    if !string_eq(&flag, &one) {
        return None;
    }
    let (value, p2) = match read_field(v, p1) {
        Some(x) => x,
        None => {
            return None;
        },
    };
    proof {
        assert(v@.subrange(pos as int, p2 as int) =~= v@.subrange(pos as int, p1 as int)
            + v@.subrange(p1 as int, p2 as int));
        assert(v@.subrange(pos as int, p2 as int) =~= enc_opt(Some(value)));
    }
    Some((Some(value), p2))
}

/// Deserialize a stored record. A successful decode returns a transaction
/// that serializes back to exactly the given text, so whatever is accepted
/// from disk is pinned by the encoder's contract.
#[verifier::rlimit(100)]
#[verifier::spinoff_prover]
pub fn decode_transaction(text: &str) -> (r: Option<Transaction>)
    ensures
        r matches Some(t) ==> spec_encode_transaction(&t) == text@,
{
    proof {
        reveal_strlit("active");
        reveal_strlit("committed");
        reveal_strlit("aborted");
        reveal_strlit("create");
        reveal_strlit("update");
        reveal_strlit("delete");
        assert("active"@.len() == 6);
        assert("committed"@.len() == 9);
        assert("aborted"@.len() == 7);
        assert("create"@.len() == 6);
        assert("update"@.len() == 6);
        assert("delete"@.len() == 6);
    }
    let v = string_to_chars(text);
    let (id, p1) = match read_field(&v, 0) {
        Some(x) => x,
        None => {
            return None;
        },
    };
    let (state_str, p2) = match read_field(&v, p1) {
        Some(x) => x,
        None => {
            return None;
        },
    };
    let active = "active".to_owned();
    let committed = "committed".to_owned();
    let aborted = "aborted".to_owned();
    let state: TransactionState = if string_eq(&state_str, &active) {
        TransactionState::Active
    } else if string_eq(&state_str, &committed) {
        TransactionState::Committed
    } else if string_eq(&state_str, &aborted) {
        TransactionState::Aborted
    } else {
        return None;
    };
    let (tag, p3) = match read_field(&v, p2) {
        Some(x) => x,
        None => {
            return None;
        },
    };
    let create_tag = "create".to_owned();
    let update_tag = "update".to_owned();
    let delete_tag = "delete".to_owned();
    let (operation, p4): (Operation, usize) = if string_eq(&tag, &create_tag) {
        let (node_type, q1) = match read_field(&v, p3) {
            Some(x) => x,
            None => {
                return None;
            },
        };
        let (content, q2) = match read_field(&v, q1) {
            Some(x) => x,
            None => {
                return None;
            },
        };
        let (temp_id, q3) = match read_opt_field(&v, q2) {
            Some(x) => x,
            None => {
                return None;
            },
        };
        (Operation::CreateNode { node_type, content, temp_id }, q3)
    } else if string_eq(&tag, &update_tag) {
        let (node_id, q1) = match read_field(&v, p3) {
            Some(x) => x,
            None => {
                return None;
            },
        };
        let (content, q2) = match read_field(&v, q1) {
            Some(x) => x,
            None => {
                return None;
            },
        };
        (Operation::UpdateNode { node_id, content }, q2)
    } else if string_eq(&tag, &delete_tag) {
        let (node_id, q1) = match read_field(&v, p3) {
            Some(x) => x,
            None => {
                return None;
            },
        };
        (Operation::DeleteNode { node_id }, q1)
    } else {
        return None;
    };
    proof {
        assert(v@.subrange(p2 as int, p4 as int) =~= v@.subrange(p2 as int, p3 as int)
            + v@.subrange(p3 as int, p4 as int));
    }
    let ghost op_seg = v@.subrange(p2 as int, p4 as int);
    let (created_str, p5) = match read_field(&v, p4) {
        Some(x) => x,
        None => {
            return None;
        },
    };
    let created_chars = string_to_chars(created_str.as_str());
    let created: u64 = match parse_u64_range(&created_chars, 0, created_chars.len()) {
        Some(x) => x,
        None => {
            return None;
        },
    };
    let created_canon = u64_to_dec_string(created);
    if !string_eq(&created_canon, &created_str) {
        return None;
    }
    let (updated_str, p6) = match read_field(&v, p5) {
        Some(x) => x,
        None => {
            return None;
        },
    };
    let updated_chars = string_to_chars(updated_str.as_str());
    let updated: u64 = match parse_u64_range(&updated_chars, 0, updated_chars.len()) {
        Some(x) => x,
        None => {
            return None;
        },
    };
    let updated_canon = u64_to_dec_string(updated);
    if !string_eq(&updated_canon, &updated_str) {
        return None;
    }
    let (content_hash, p7) = match read_opt_field(&v, p6) {
        Some(x) => x,
        None => {
            return None;
        },
    };
    let (error_message, p8) = match read_opt_field(&v, p7) {
        Some(x) => x,
        None => {
            return None;
        },
    };
    if p8 != v.len() {
        return None;
    }
    let t = Transaction {
        id,
        operation,
        state,
        created_at: created,
        updated_at: updated,
        content_hash,
        error_message,
    };
    proof {
        assert(enc_op(&t.operation) == op_seg);
        lemma_decode_concat(v@, &t, p1 as int, p2 as int, p4 as int, p5 as int, p6 as int, p7 as int);
    }
    Some(t)
}

/// Gluing the decoded fields back together yields the whole input, so the
/// decoded transaction serializes to exactly the bytes read.
#[verifier::rlimit(100)]
proof fn lemma_decode_concat(
    w: Seq<char>,
    t: &Transaction,
    p1: int,
    p2: int,
    p4: int,
    p5: int,
    p6: int,
    p7: int,
)
    requires
        0 <= p1 <= p2 <= p4 <= p5 <= p6 <= p7 <= w.len(),
        w.subrange(0, p1) == enc_str(t.id@),
        w.subrange(p1, p2) == enc_str(state_name(t.state)),
        w.subrange(p2, p4) == enc_op(&t.operation),
        w.subrange(p4, p5) == enc_str(dec_seq(t.created_at)),
        w.subrange(p5, p6) == enc_str(dec_seq(t.updated_at)),
        w.subrange(p6, p7) == enc_opt(t.content_hash),
        w.subrange(p7, w.len() as int) == enc_opt(t.error_message),
    ensures
        spec_encode_transaction(t) == w,
{
    assert(w.subrange(0, p2) =~= w.subrange(0, p1) + w.subrange(p1, p2));
    assert(w.subrange(0, p4) =~= w.subrange(0, p2) + w.subrange(p2, p4));
    assert(w.subrange(0, p5) =~= w.subrange(0, p4) + w.subrange(p4, p5));
    assert(w.subrange(0, p6) =~= w.subrange(0, p5) + w.subrange(p5, p6));
    assert(w.subrange(0, p7) =~= w.subrange(0, p6) + w.subrange(p6, p7));
    assert(w =~= w.subrange(0, p7) + w.subrange(p7, w.len() as int));
    assert(spec_encode_transaction(t) =~= w);
}


// ---------------------------------------------------------------------
// Durable mirror (sled, trusted)
// ---------------------------------------------------------------------
#[verifier::external_type_specification]
#[verifier::external_body]
pub struct ExSledDb(sled::Db);

#[verifier::external_type_specification]
#[verifier::external_body]
pub struct ExSledTree(sled::Tree);

/// What a sled tree holds among its UTF-8 pairs, read as text: a map from
/// key to value. This library writes only UTF-8 keys and values; the
/// reading wrappers refuse a tree holding anything else rather than guess.
pub uninterp spec fn tree_map(t: sled::Tree) -> Map<Seq<char>, Seq<char>>;

/// Relies on `sled::Config::{new, path, flush_every_ms, cache_capacity,
/// mode}` and `sled::Config::open`: opens (creating if missing) the
/// embedded database at the path. Its contents are whatever is on disk.
#[verifier::external_body]
fn open_db(path: &str) -> Result<sled::Db, String> {
    sled::Config::new()
        .path(path)
        .flush_every_ms(Some(100))
        .cache_capacity(64 * 1024 * 1024)
        .mode(sled::Mode::HighThroughput)
        .open()
        .map_err(|e| e.to_string())
}

/// Relies on `sled::Db::open_tree`: the named tree of the database.
#[verifier::external_body]
fn open_tree(db: &sled::Db, name: &str) -> Result<sled::Tree, String> {
    db.open_tree(name).map_err(|e| e.to_string())
}

/// Relies on `sled::Tree::insert`: on success the tree maps the key to the
/// value; both travel as UTF-8 bytes.
#[verifier::external_body]
fn tree_put(t: &mut sled::Tree, key: &str, value: &str) -> (r: Result<(), String>)
    ensures
        r is Ok ==> tree_map(*final(t)) == tree_map(*old(t)).insert(key@, value@),
{
    (&*t).insert(key.as_bytes(), value.as_bytes()).map(|_| ()).map_err(|e| e.to_string())
}

/// Relies on `sled::Tree::remove`: on success the key is gone.
#[verifier::external_body]
fn tree_del(t: &mut sled::Tree, key: &str) -> (r: Result<(), String>)
    ensures
        r is Ok ==> tree_map(*final(t)) == tree_map(*old(t)).remove(key@),
{
    (&*t).remove(key.as_bytes()).map(|_| ()).map_err(|e| e.to_string())
}

/// Relies on `sled::Tree::iter` and `str::from_utf8`: on success, every
/// stored pair read as text, and nothing but the stored pairs — the
/// iterator yields the whole tree; an entry whose key or value is not
/// UTF-8 is surfaced as the error, so the returned keys inherit
/// distinctness from sled's distinct byte keys (UTF-8 decoding is
/// injective).
#[verifier::external_body]
fn tree_entries(t: &sled::Tree) -> (r: Result<Vec<(String, String)>, String>)
    ensures
        r matches Ok(v) ==> ({
            &&& (forall|i: int|
                0 <= i < v@.len() ==> tree_map(*t).contains_key((#[trigger] v@[i]).0@) && tree_map(
                    *t,
                )[v@[i].0@] == v@[i].1@)
            &&& (forall|i: int, j: int|
                0 <= i < j < v@.len() ==> (#[trigger] v@[i]).0@ != (#[trigger] v@[j]).0@)
            &&& (forall|k: Seq<char>|
                #[trigger] tree_map(*t).contains_key(k) ==> exists|i: int|
                    0 <= i < v@.len() && (#[trigger] v@[i]).0@ == k)
        }),
{
    let mut out = Vec::new();
    for item in t.iter() {
        let (k, val) = item.map_err(|e| e.to_string())?;
        let key = std::str::from_utf8(k.as_ref()).map_err(|e| e.to_string())?.to_string();
        let value = std::str::from_utf8(val.as_ref()).map_err(|e| e.to_string())?.to_string();
        out.push((key, value));
    }
    Ok(out)
}

/// Relies on `sled::Tree::iter` and `str::from_utf8`: on success, every
/// stored key as text, and nothing but the stored keys — the iterator
/// yields the whole tree; a non-UTF-8 key is surfaced as the error, so the
/// returned keys inherit distinctness from sled's distinct byte keys.
#[verifier::external_body]
fn tree_keys(t: &sled::Tree) -> (r: Result<Vec<String>, String>)
    ensures
        r matches Ok(v) ==> ({
            &&& (forall|i: int|
                0 <= i < v@.len() ==> tree_map(*t).contains_key((#[trigger] v@[i])@))
            &&& (forall|i: int, j: int|
                0 <= i < j < v@.len() ==> (#[trigger] v@[i])@ != (#[trigger] v@[j])@)
            &&& (forall|k: Seq<char>|
                #[trigger] tree_map(*t).contains_key(k) ==> exists|i: int|
                    0 <= i < v@.len() && (#[trigger] v@[i])@ == k)
        }),
{
    let mut out = Vec::new();
    for item in t.iter() {
        let (k, _) = item.map_err(|e| e.to_string())?;
        out.push(std::str::from_utf8(k.as_ref()).map_err(|e| e.to_string())?.to_string());
    }
    Ok(out)
}

/// Relies on `sled::Db::flush`: pending writes are made durable.
#[verifier::external_body]
fn db_flush(db: &Option<sled::Db>) -> Result<(), String> {
    match db {
        Some(d) => d.flush().map(|_| ()).map_err(|e| e.to_string()),
        None => Ok(()),
    }
}

/// Relies on `sled::Db::flush` and `Drop`: flushes and releases the
/// database handle.
#[verifier::external_body]
fn db_close(db: &mut Option<sled::Db>) -> (r: Result<(), String>)
    ensures
        (*final(db)) is None,
{
    match db.take() {
        Some(d) => d.flush().map(|_| ()).map_err(|e| e.to_string()),
        None => Ok(()),
    }
}

// ---------------------------------------------------------------------
// The log
// ---------------------------------------------------------------------
/// Whether some entry carries this transaction id.
pub open spec fn has_tx(entries: Seq<Transaction>, id: Seq<char>) -> bool {
    exists|i: int| 0 <= i < entries.len() && (#[trigger] entries[i]).id@ == id
}

/// Whether the pending set carries this id.
pub open spec fn pending_has(pending: Seq<String>, id: Seq<char>) -> bool {
    exists|i: int| 0 <= i < pending.len() && (#[trigger] pending[i])@ == id
}

/// Whether an `Active` entry carries this id.
pub open spec fn active_in(entries: Seq<Transaction>, id: Seq<char>) -> bool {
    exists|e: int|
        0 <= e < entries.len() && (#[trigger] entries[e]).id@ == id && entries[e].state
            == TransactionState::Active
}

/// Every pending id belongs to an `Active` entry.
pub open spec fn pending_ok(entries: Seq<Transaction>, pending: Seq<String>) -> bool {
    forall|i: int| 0 <= i < pending.len() ==> active_in(entries, (#[trigger] pending[i])@)
}

/// The pending transactions: the entries whose id is in the pending set.
pub open spec fn pending_txs(entries: Seq<Transaction>, pending: Seq<String>) -> Seq<Transaction>
    decreases entries.len(),
{
    if entries.len() == 0 {
        Seq::empty()
    } else {
        let rest = pending_txs(entries.drop_last(), pending);
        if pending_has(pending, entries.last().id@) {
            rest.push(entries.last())
        } else {
            rest
        }
    }
}

/// The durable, single-writer store of transactions: an exact in-memory
/// image backed by a sled database with three trees (records, content-hash
/// index, pending set).
pub struct TransactionLog {
    pub db: Option<sled::Db>,
    pub transactions_tree: sled::Tree,
    pub content_hash_index: sled::Tree,
    pub pending_index: sled::Tree,
    /// All known transactions, ids distinct.
    pub entries: Vec<Transaction>,
    /// Ids of the transactions in the pending set.
    pub pending: Vec<String>,
}

/// Some stored record's text is exactly this transaction's encoding.
pub open spec fn record_stored(m: Map<Seq<char>, Seq<char>>, t: Transaction) -> bool {
    exists|k: Seq<char>| #[trigger] m.contains_key(k) && m[k] == spec_encode_transaction(&t)
}

impl TransactionLog {
    /// Ids are distinct, and presence in the pending set means the
    /// transaction exists and is `Active` — so a `Committed` or `Aborted`
    /// transaction is never pending.
    pub open spec fn wf(&self) -> bool {
        &&& (forall|i: int, j: int|
            0 <= i < j < self.entries@.len() ==> (#[trigger] self.entries@[i]).id@ != (
            #[trigger] self.entries@[j]).id@)
        &&& (forall|i: int, j: int|
            0 <= i < j < self.pending@.len() ==> (#[trigger] self.pending@[i])@ != (
            #[trigger] self.pending@[j])@)
        &&& pending_ok(self.entries@, self.pending@)
    }

    /// Open (or create) the log at a directory. Whatever records are on
    /// disk are read back; a record is kept only when it decodes, its id
    /// is fresh, and — for the pending set — it is `Active`.
    pub fn new(path: &str) -> (r: Result<TransactionLog, TransactionLogError>)
        ensures
            r matches Ok(log) ==> ({
                &&& log.wf()
                &&& (forall|i: int|
                    0 <= i < log.entries@.len() ==> record_stored(
                        tree_map(log.transactions_tree),
                        #[trigger] log.entries@[i],
                    ))
                &&& (forall|i: int|
                    0 <= i < log.pending@.len() ==> tree_map(log.pending_index).contains_key(
                        (#[trigger] log.pending@[i])@,
                    ) && active_in(log.entries@, log.pending@[i]@))
                &&& (forall|k: Seq<char>|
                    (#[trigger] tree_map(log.pending_index).contains_key(k) && active_in(
                        log.entries@,
                        k,
                    )) ==> pending_has(log.pending@, k))
            }),
    {
        let db = match open_db(path) {
            Ok(d) => d,
            Err(e) => {
                return Err(TransactionLogError::SledError(e));
            },
        };
        let transactions_tree = match open_tree(&db, "transactions") {
            Ok(t) => t,
            Err(e) => {
                return Err(TransactionLogError::SledError(e));
            },
        };
        let content_hash_index = match open_tree(&db, "content_hash_index") {
            Ok(t) => t,
            Err(e) => {
                return Err(TransactionLogError::SledError(e));
            },
        };
        let pending_index = match open_tree(&db, "pending_transactions") {
            Ok(t) => t,
            Err(e) => {
                return Err(TransactionLogError::SledError(e));
            },
        };
        let stored = match tree_entries(&transactions_tree) {
            Ok(v) => v,
            Err(e) => {
                return Err(TransactionLogError::SledError(e));
            },
        };
        let mut entries: Vec<Transaction> = Vec::new();
        let mut i: usize = 0;
        while i < stored.len()
            invariant
                forall|a: int, b: int|
                    0 <= a < b < entries@.len() ==> (#[trigger] entries@[a]).id@ != (
                    #[trigger] entries@[b]).id@,
                forall|a: int|
                    0 <= a < entries@.len() ==> record_stored(
                        tree_map(transactions_tree),
                        #[trigger] entries@[a],
                    ),
                forall|a: int|
                    0 <= a < stored@.len() ==> tree_map(transactions_tree).contains_key(
                        (#[trigger] stored@[a]).0@,
                    ) && tree_map(transactions_tree)[stored@[a].0@] == stored@[a].1@,
            decreases stored@.len() - i,
        {
            let pair = &stored[i];
            if let Some(t) = decode_transaction(pair.1.as_str()) {
                if !log_has_tx(&entries, &t.id) {
                    let ghost entries_pre = entries@;
                    let ghost tg = t;
                    entries.push(t);
                    proof {
                        assert(tree_map(transactions_tree).contains_key(stored@[i as int].0@));
                        assert(tree_map(transactions_tree)[stored@[i as int].0@]
                            == spec_encode_transaction(&tg));
                        assert(record_stored(tree_map(transactions_tree), tg));
                        assert forall|a: int| 0 <= a < entries@.len() implies record_stored(
                            tree_map(transactions_tree),
                            #[trigger] entries@[a],
                        ) by {
                            if a < entries@.len() - 1 {
                                assert(entries@[a] == entries_pre[a]);
                            } else {
                                assert(entries@[a] == tg);
                            }
                        }
                    }
                }
            }
            i = i + 1;
        }
        let pending_keys = match tree_keys(&pending_index) {
            Ok(v) => v,
            Err(e) => {
                return Err(TransactionLogError::SledError(e));
            },
        };
        let mut pending: Vec<String> = Vec::new();
        let mut j: usize = 0;
        while j < pending_keys.len()
            invariant
                0 <= j <= pending_keys@.len(),
                forall|a: int, b: int|
                    0 <= a < b < pending@.len() ==> (#[trigger] pending@[a])@ != (
                    #[trigger] pending@[b])@,
                pending_ok(entries@, pending@),
                forall|a: int, b: int|
                    0 <= a < b < entries@.len() ==> (#[trigger] entries@[a]).id@ != (
                    #[trigger] entries@[b]).id@,
                forall|a: int|
                    0 <= a < pending_keys@.len() ==> tree_map(pending_index).contains_key(
                        (#[trigger] pending_keys@[a])@,
                    ),
                forall|a: int|
                    0 <= a < pending@.len() ==> tree_map(pending_index).contains_key(
                        (#[trigger] pending@[a])@,
                    ),
                forall|k: Seq<char>|
                    ((exists|w: int| 0 <= w < j && (#[trigger] pending_keys@[w])@ == k)
                        && active_in(entries@, k)) ==> pending_has(pending@, k),
            decreases pending_keys@.len() - j,
        {
            let key = &pending_keys[j];
            let mut is_active = false;
            match log_find_tx(&entries, key) {
                Some(idx) => {
                    if entries[idx].state == TransactionState::Active {
                        is_active = true;
                        proof {
                            assert((entries@[idx as int]).id@ == key@);
                            assert(active_in(entries@, key@));
                        }
                    } else {
                        proof {
                            assert forall|w: int|
                                0 <= w < entries@.len() && (#[trigger] entries@[w]).id@ == key@
                                    implies entries@[w].state != TransactionState::Active by {
                                if w != idx as int {
                                    assert(entries@[w].id@ != entries@[idx as int].id@);
                                }
                            }
                            assert(!active_in(entries@, key@));
                        }
                    }
                },
                None => {
                    proof {
                        assert(!active_in(entries@, key@));
                    }
                },
            };
            let ghost pending_pre = pending@;
            if is_active && !string_vec_has(&pending, key) {
                pending.push(key.clone());
                proof {
                    assert(pending@.last()@ == key@);
                    assert forall|a: int| 0 <= a < pending@.len() implies active_in(
                        entries@,
                        (#[trigger] pending@[a])@,
                    ) by {
                        if a < pending@.len() - 1 {
                            assert(pending@[a] == pending_pre[a]);
                        }
                    }
                }
            }
            proof {
                assert forall|k: Seq<char>|
                    ((exists|w: int| 0 <= w < j + 1 && (#[trigger] pending_keys@[w])@ == k)
                        && active_in(entries@, k)) implies pending_has(pending@, k) by {
                    let w = choose|w: int|
                        0 <= w < j + 1 && (#[trigger] pending_keys@[w])@ == k;
                    if w < j {
                        assert(pending_has(pending_pre, k));
                        let a = choose|a: int|
                            0 <= a < pending_pre.len() && (#[trigger] pending_pre[a])@ == k;
                        assert(pending@[a]@ == k);
                    } else {
                        assert(pending_keys@[j as int]@ == k);
                        if is_active {
                            if pending@ == pending_pre {
                                assert(pending_has(pending_pre, k));
                            } else {
                                assert(pending@.last()@ == k);
                            }
                        } else {
                            assert(!active_in(entries@, k));
                        }
                    }
                }
            }
            j = j + 1;
        }
        proof {
            assert forall|k: Seq<char>|
                (#[trigger] tree_map(pending_index).contains_key(k) && active_in(entries@, k))
                    implies pending_has(pending@, k) by {
                let w = choose|w: int|
                    0 <= w < pending_keys@.len() && (#[trigger] pending_keys@[w])@ == k;
                assert(0 <= w < j && pending_keys@[w]@ == k);
            }
        }
        Ok(
            TransactionLog {
                db: Some(db),
                transactions_tree,
                content_hash_index,
                pending_index,
                entries,
                pending,
            },
        )
    }

    /// Append a freshly begun transaction: store the record, index its
    /// content hash when present, and mark it pending.
    pub fn append_transaction(&mut self, transaction: Transaction) -> (r: Result<
        String,
        TransactionLogError,
    >)
        requires
            old(self).wf(),
            transaction.state == TransactionState::Active,
            !has_tx(old(self).entries@, transaction.id@),
        ensures
            final(self).wf(),
            match r {
                Ok(id) => ({
                    &&& id == transaction.id
                    &&& final(self).entries@ == old(self).entries@.push(transaction)
                    &&& final(self).pending@ == old(self).pending@.push(transaction.id)
                    &&& pending_has(final(self).pending@, transaction.id@)
                }),
                Err(e) => final(self).entries@ == old(self).entries@ && final(self).pending@ == old(
                    self,
                ).pending@ && e is SledError,
            },
    {
        let encoded = encode_transaction(&transaction);
        if let Err(e) = tree_put(&mut self.transactions_tree, transaction.id.as_str(), encoded.as_str()) {
            return Err(TransactionLogError::SledError(e));
        }
        if let Some(hash) = &transaction.content_hash {
            if let Err(e) = tree_put(&mut self.content_hash_index, hash.as_str(), transaction.id.as_str()) {
                return Err(TransactionLogError::SledError(e));
            }
        }
        if let Err(e) = tree_put(&mut self.pending_index, transaction.id.as_str(), "") {
            return Err(TransactionLogError::SledError(e));
        }
        let id = transaction.id.clone();
        let ghost pre = *self;
        proof {
            // a fresh id cannot already be pending
            if pending_has(self.pending@, transaction.id@) {
                let i = choose|i: int|
                    0 <= i < self.pending@.len() && (#[trigger] self.pending@[i])@
                        == transaction.id@;
                assert(false);
            }
        }
        self.pending.push(transaction.id.clone());
        self.entries.push(transaction);
        proof {
            assert(self.pending@.last()@ == self.entries@.last().id@);
            assert forall|i: int| 0 <= i < self.pending@.len() implies active_in(
                self.entries@,
                (#[trigger] self.pending@[i])@,
            ) by {
                if i < self.pending@.len() - 1 {
                    assert(pending_has(pre.pending@, pre.pending@[i]@));
                    assert(active_in(pre.entries@, pre.pending@[i]@));
                    let e = choose|e: int|
                        0 <= e < pre.entries@.len() && (#[trigger] pre.entries@[e]).id@ == (
                        pre.pending@[i])@ && pre.entries@[e].state == TransactionState::Active;
                    assert(self.entries@[e] == pre.entries@[e]);
                    assert(active_in(self.entries@, self.pending@[i]@));
                } else {
                    assert(self.entries@[self.entries@.len() - 1].id@ == self.pending@[i]@);
                    assert(active_in(self.entries@, self.pending@[i]@));
                }
            }
        }
        Ok(id)
    }

    /// Fetch a transaction by id; fails with not-found exactly when no
    /// entry carries the id.
    pub fn get_transaction(&self, id: &str) -> (r: Result<Transaction, TransactionLogError>)
        requires
            self.wf(),
        ensures
            match r {
                Ok(t) => has_tx(self.entries@, id@) && exists|i: int|
                    0 <= i < self.entries@.len() && #[trigger] self.entries@[i] == t
                        && self.entries@[i].id@ == id@,
                Err(e) => !has_tx(self.entries@, id@) && e is TransactionNotFound,
            },
    {
        let key = id.to_owned();
        match log_find_tx(&self.entries, &key) {
            Some(i) => {
                let t = clone_transaction(&self.entries[i]);
                Ok(t)
            },
            None => Err(TransactionLogError::TransactionNotFound(key)),
        }
    }

    /// Validate and apply a state transition: only `Active` transactions
    /// move, and a move to `Committed` or `Aborted` leaves the pending set.
    pub fn update_transaction_state(&mut self, id: &str, new_state: TransactionState) -> (r: Result<
        (),
        TransactionLogError,
    >)
        requires
            old(self).wf(),
        ensures
            final(self).wf(),
            match r {
                Ok(()) => ({
                    &&& exists|j: int|
                        #[trigger] transition_witness(
                            old(self).entries@,
                            final(self).entries@,
                            id@,
                            new_state,
                            None,
                            j,
                        )
                    &&& final(self).entries@.len() == old(self).entries@.len()
                    &&& (new_state == TransactionState::Committed || new_state
                        == TransactionState::Aborted ==> !pending_has(final(self).pending@, id@))
                    &&& (new_state == TransactionState::Active ==> final(self).pending@ == old(
                        self,
                    ).pending@)
                    &&& (forall|k: Seq<char>|
                        k != id@ ==> pending_has(final(self).pending@, k) == pending_has(
                            old(self).pending@,
                            k,
                        ))
                }),
                Err(e) => ({
                    &&& final(self).entries@ == old(self).entries@
                    &&& final(self).pending@ == old(self).pending@
                    &&& (e is TransactionNotFound <==> !has_tx(old(self).entries@, id@))
                    &&& (e is InvalidStateTransition <==> (exists|j: int|
                        0 <= j < old(self).entries@.len() && (#[trigger] old(
                            self,
                        ).entries@[j]).id@ == id@ && old(self).entries@[j].state
                            != TransactionState::Active))
                }),
            },
    {
        self.apply_transition(id, new_state, None)
    }

    /// Apply a validated transition, recording a reason in the entry's
    /// `error_message` when one is given (an abort carries its reason).
    pub fn apply_transition(
        &mut self,
        id: &str,
        new_state: TransactionState,
        error_message: Option<String>,
    ) -> (r: Result<(), TransactionLogError>)
        requires
            old(self).wf(),
        ensures
            final(self).wf(),
            match r {
                Ok(()) => ({
                    &&& exists|j: int|
                        #[trigger] transition_witness(
                            old(self).entries@,
                            final(self).entries@,
                            id@,
                            new_state,
                            opt_view(error_message),
                            j,
                        )
                    &&& final(self).entries@.len() == old(self).entries@.len()
                    &&& (new_state == TransactionState::Committed || new_state
                        == TransactionState::Aborted ==> !pending_has(final(self).pending@, id@))
                    &&& (new_state == TransactionState::Active ==> final(self).pending@ == old(
                        self,
                    ).pending@)
                    &&& (forall|k: Seq<char>|
                        k != id@ ==> pending_has(final(self).pending@, k) == pending_has(
                            old(self).pending@,
                            k,
                        ))
                }),
                Err(e) => ({
                    &&& final(self).entries@ == old(self).entries@
                    &&& final(self).pending@ == old(self).pending@
                    &&& (e is TransactionNotFound <==> !has_tx(old(self).entries@, id@))
                    &&& (e is InvalidStateTransition <==> (exists|j: int|
                        0 <= j < old(self).entries@.len() && (#[trigger] old(
                            self,
                        ).entries@[j]).id@ == id@ && old(self).entries@[j].state
                            != TransactionState::Active))
                }),
            },
    {
        let key = id.to_owned();
        let j = match log_find_tx(&self.entries, &key) {
            Some(j) => j,
            None => {
                return Err(TransactionLogError::TransactionNotFound(key));
            },
        };
        let was_active = self.entries[j].state == TransactionState::Active;
        if !was_active {
            proof {
                assert((self.entries@[j as int]).id@ == id@);
            }
            return Err(TransactionLogError::InvalidStateTransition(key));
        }
        let now_signed = now_millis();
        let now: u64 = if now_signed >= 0 {
            now_signed as u64
        } else {
            0
        };
        let mut updated = clone_transaction(&self.entries[j]);
        updated.state = new_state;
        updated.updated_at = now;
        match error_message {
            Some(m) => {
                updated.error_message = Some(m);
            },
            None => {},
        }
        let encoded = encode_transaction(&updated);
        if let Err(e) = tree_put(&mut self.transactions_tree, key.as_str(), encoded.as_str()) {
            return Err(TransactionLogError::SledError(e));
        }
        let remove_pending = match new_state {
            TransactionState::Committed => true,
            TransactionState::Aborted => true,
            TransactionState::Active => false,
        };
        if remove_pending {
            if let Err(e) = tree_del(&mut self.pending_index, key.as_str()) {
                return Err(TransactionLogError::SledError(e));
            }
        }
        let ghost pre = *self;
        let slot = &mut self.entries[j];
        *slot = updated;
        if remove_pending {
            remove_pending_id(&mut self.pending, &key);
        }
        proof {
            assert(transition_witness(
                old(self).entries@,
                self.entries@,
                id@,
                new_state,
                opt_view(error_message),
                j as int,
            ));
            assert forall|i: int| 0 <= i < self.pending@.len() implies active_in(
                self.entries@,
                (#[trigger] self.pending@[i])@,
            ) by {
                assert(pending_has(pre.pending@, self.pending@[i]@));
                assert(active_in(pre.entries@, self.pending@[i]@));
                let e = choose|e: int|
                    0 <= e < pre.entries@.len() && (#[trigger] pre.entries@[e]).id@ == (
                    self.pending@[i])@ && pre.entries@[e].state == TransactionState::Active;
                if e == j as int {
                    assert(self.pending@[i]@ == id@);
                    assert(!remove_pending);
                    assert(self.entries@[e].state == TransactionState::Active);
                    assert(active_in(self.entries@, self.pending@[i]@));
                } else {
                    assert(self.entries@[e] == pre.entries@[e]);
                    assert(active_in(self.entries@, self.pending@[i]@));
                }
            }
        }
        Ok(())
    }

    /// The pending transactions, in log order. Used during recovery; reads
    /// only the in-memory image and therefore always succeeds.
    pub fn list_pending_transactions(&self) -> (r: Result<Vec<Transaction>, TransactionLogError>)
        requires
            self.wf(),
        ensures
            r is Ok,
            r matches Ok(v) ==> v@ == pending_txs(self.entries@, self.pending@),
    {
        let mut out: Vec<Transaction> = Vec::new();
        let mut i: usize = 0;
        while i < self.entries.len()
            invariant
                0 <= i <= self.entries@.len(),
                out@ =~= pending_txs(self.entries@.take(i as int), self.pending@),
            decreases self.entries@.len() - i,
        {
            proof {
                assert(self.entries@.take(i as int + 1).drop_last() =~= self.entries@.take(
                    i as int,
                ));
                assert(self.entries@.take(i as int + 1).last() == self.entries@[i as int]);
            }
            let t = &self.entries[i];
            if string_vec_has(&self.pending, &t.id) {
                let c = clone_transaction(t);
                out.push(c);
            }
            i = i + 1;
        }
        proof {
            assert(self.entries@.take(self.entries@.len() as int) =~= self.entries@);
        }
        Ok(out)
    }

    /// Force pending writes to disk.
    pub fn flush(&self) -> (r: Result<(), TransactionLogError>)
    {
        match db_flush(&self.db) {
            Ok(()) => Ok(()),
            Err(e) => Err(TransactionLogError::SledError(e)),
        }
    }

    /// Flush and release the database; further mirrored writes fail.
    pub fn close(&mut self) -> (r: Result<(), TransactionLogError>)
        ensures
            final(self).entries@ == old(self).entries@,
            final(self).pending@ == old(self).pending@,
            final(self).wf() == old(self).wf(),
    {
        match db_close(&mut self.db) {
            Ok(()) => Ok(()),
            Err(e) => Err(TransactionLogError::SledError(e)),
        }
    }
}

/// What one applied transition changed: entry `j` was the `Active` entry
/// with the id, only it changed, and it moved to the new state.
pub open spec fn transition_witness(
    before: Seq<Transaction>,
    after: Seq<Transaction>,
    id: Seq<char>,
    new_state: TransactionState,
    error: Option<Seq<char>>,
    j: int,
) -> bool {
    &&& 0 <= j < before.len()
    &&& before[j].id@ == id
    &&& before[j].state == TransactionState::Active
    &&& after.len() == before.len()
    &&& (forall|k: int| 0 <= k < before.len() && k != j ==> after[k] == before[k])
    &&& tx_updated(before[j], after[j], new_state, error)
}

/// The view of an optional string.
pub open spec fn opt_view(o: Option<String>) -> Option<Seq<char>> {
    match o {
        Some(s) => Some(s@),
        None => None,
    }
}

/// What a state transition changes and what it keeps: the state moves, a
/// given reason is recorded in `error_message`, everything else stays.
pub open spec fn tx_updated(
    before: Transaction,
    after: Transaction,
    new_state: TransactionState,
    error: Option<Seq<char>>,
) -> bool {
    &&& after.id == before.id
    &&& after.operation == before.operation
    &&& after.state == new_state
    &&& after.created_at == before.created_at
    &&& after.content_hash == before.content_hash
    &&& (match error {
        Some(m) => after.error_message matches Some(em) && em@ == m,
        None => after.error_message == before.error_message,
    })
}

/// Whether any entry carries the id (exact scan).
pub fn log_has_tx(entries: &Vec<Transaction>, id: &String) -> (r: bool)
    ensures
        r == has_tx(entries@, id@),
{
    let mut i: usize = 0;
    while i < entries.len()
        invariant
            0 <= i <= entries@.len(),
            forall|k: int| 0 <= k < i ==> (#[trigger] entries@[k]).id@ != id@,
        decreases entries@.len() - i,
    {
        let t = &entries[i];
        if string_eq(&t.id, id) {
            proof {
                assert((entries@[i as int]).id@ == id@);
            }
            return true;
        }
        i = i + 1;
    }
    false
}

/// Index of the entry carrying the id, if any.
fn log_find_tx(entries: &Vec<Transaction>, id: &String) -> (r: Option<usize>)
    ensures
        match r {
            Some(i) => i < entries@.len() && entries@[i as int].id@ == id@,
            None => !has_tx(entries@, id@),
        },
{
    let mut i: usize = 0;
    while i < entries.len()
        invariant
            0 <= i <= entries@.len(),
            forall|k: int| 0 <= k < i ==> (#[trigger] entries@[k]).id@ != id@,
        decreases entries@.len() - i,
    {
        let t = &entries[i];
        if string_eq(&t.id, id) {
            return Some(i);
        }
        i = i + 1;
    }
    None
}

/// Whether the vector holds the string (by text).
pub fn string_vec_has(v: &Vec<String>, s: &String) -> (r: bool)
    ensures
        r == pending_has(v@, s@),
{
    let mut i: usize = 0;
    while i < v.len()
        invariant
            0 <= i <= v@.len(),
            forall|k: int| 0 <= k < i ==> (#[trigger] v@[k])@ != s@,
        decreases v@.len() - i,
    {
        if string_eq(&v[i], s) {
            proof {
                assert((v@[i as int])@ == s@);
            }
            return true;
        }
        i = i + 1;
    }
    false
}

/// Removes every occurrence of the id from the pending vector.
#[verifier::loop_isolation(false)]
fn remove_pending_id(v: &mut Vec<String>, id: &String)
    requires
        forall|a: int, b: int|
            0 <= a < b < old(v)@.len() ==> (#[trigger] old(v)@[a])@ != (#[trigger] old(v)@[b])@,
    ensures
        !pending_has(final(v)@, id@),
        forall|k: Seq<char>| k != id@ ==> pending_has(final(v)@, k) == pending_has(old(v)@, k),
        forall|i: int, j: int|
            0 <= i < j < final(v)@.len() ==> (#[trigger] final(v)@[i])@
                != (#[trigger] final(v)@[j])@,
{
    let mut kept: Vec<String> = Vec::new();
    let mut i: usize = 0;
    while i < v.len()
        invariant
            0 <= i <= v@.len(),
            v@ == old(v)@,
            forall|k: int| 0 <= k < kept@.len() ==> (#[trigger] kept@[k])@ != id@,
            forall|k: int|
                0 <= k < kept@.len() ==> exists|w: int|
                    0 <= w < i && (#[trigger] kept@[k]) == v@[w],
            forall|a: int, b: int|
                0 <= a < b < kept@.len() ==> (#[trigger] kept@[a])@ != (#[trigger] kept@[b])@,
            forall|w: int|
                0 <= w < i && (#[trigger] v@[w])@ != id@ ==> pending_has(kept@, v@[w]@),
        decreases v@.len() - i,
    {
        let s = &v[i];
        if !string_eq(s, id) {
            let cloned = s.clone();
            let ghost kept_pre = kept@;
            kept.push(cloned);
            proof {
                assert(kept@[kept@.len() - 1] == v@[i as int]);
                assert(pending_has(kept@, v@[i as int]@));
                assert forall|a: int| 0 <= a < kept@.len() - 1 implies (#[trigger] kept@[a])@ != (
                v@[i as int])@ by {
                    assert(kept@[a] == kept_pre[a]);
                    let w = choose|w: int| 0 <= w < i && (kept_pre[a]) == #[trigger] v@[w];
                    assert((old(v)@[w])@ != (old(v)@[i as int])@);
                }
                assert forall|w: int|
                    0 <= w < i && (#[trigger] v@[w])@ != id@ implies pending_has(
                    kept@,
                    v@[w]@,
                ) by {
                    let z = choose|z: int|
                        0 <= z < kept_pre.len() && (#[trigger] kept_pre[z])@ == v@[w]@;
                    assert(kept@[z] == kept_pre[z]);
                    assert((kept@[z])@ == v@[w]@);
                }
            }
        }
        proof {
            assert forall|w: int| 0 <= w < i + 1 && (#[trigger] v@[w])@ != id@ implies pending_has(
                kept@,
                v@[w]@,
            ) by {
                if w < i {
                    assert(pending_has(kept@, v@[w]@));
                }
            }
        }
        i = i + 1;
    }
    let ghost old_v = v@;
    *v = kept;
    proof {
        assert forall|k: Seq<char>| k != id@ implies pending_has(v@, k) == pending_has(old_v, k) by {
            if pending_has(old_v, k) {
                let w = choose|w: int| 0 <= w < old_v.len() && (#[trigger] old_v[w])@ == k;
            }
            if pending_has(v@, k) {
                let a = choose|a: int| 0 <= a < v@.len() && (#[trigger] v@[a])@ == k;
                let w = choose|w: int| 0 <= w < old_v.len() && v@[a] == #[trigger] old_v[w];
            }
        }
    }
}

/// Clones a transaction, field by field.
pub fn clone_transaction(t: &Transaction) -> (r: Transaction)
    ensures
        r == *t,
{
    Transaction {
        id: t.id.clone(),
        operation: clone_operation(&t.operation),
        state: t.state,
        created_at: t.created_at,
        updated_at: t.updated_at,
        content_hash: match &t.content_hash {
            Some(s) => Some(s.clone()),
            None => None,
        },
        error_message: match &t.error_message {
            Some(s) => Some(s.clone()),
            None => None,
        },
    }
}

/// Clones an operation, field by field.
pub fn clone_operation(op: &Operation) -> (r: Operation)
    ensures
        r == *op,
{
    match op {
        Operation::CreateNode { node_type, content, temp_id } => Operation::CreateNode {
            node_type: node_type.clone(),
            content: content.clone(),
            temp_id: match temp_id {
                Some(s) => Some(s.clone()),
                None => None,
            },
        },
        Operation::UpdateNode { node_id, content } => Operation::UpdateNode {
            node_id: node_id.clone(),
            content: content.clone(),
        },
        Operation::DeleteNode { node_id } => Operation::DeleteNode { node_id: node_id.clone() },
    }
}


} // verus!
