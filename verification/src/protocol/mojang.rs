use vstd::prelude::*;
use vstd::string::StringSliceAdditionalSpecFns;
use super::{Error, str_member, sub_member};
use crate::json::{JsonValue, JsonView, json_view, json_members_view, lemma_json_members_index};
use crate::text::{push_chars, string_from_chars};

verus! {

/// A player's account: name, id and access token.
#[derive(Clone, Debug)]
pub struct Profile {
    pub username: String,
    pub id: String,
    pub access_token: String,
}

/// The body sent to the authentication server to log in.
pub open spec fn login_request_view(username: Seq<char>, password: Seq<char>, token: Seq<char>) -> JsonView {
    JsonView::Object(seq![
        ("username"@, JsonView::Str(username)),
        ("password"@, JsonView::Str(password)),
        ("clientToken"@, JsonView::Str(token)),
        ("agent"@, JsonView::Object(seq![
            ("name"@, JsonView::Str("Minecraft"@)),
            ("version"@, JsonView::Number(Some(1i64))),
        ])),
    ])
}

/// Whether an authentication server's answer can be read: either an error
/// with a message, or a token and a selected profile with a name and an id.
pub open spec fn auth_answer_readable(v: JsonView) -> bool {
    if str_member(v, "error"@) is Some {
        str_member(v, "errorMessage"@) is Some
    } else {
        &&& str_member(v, "accessToken"@) is Some
        &&& str_member(sub_member(v, "selectedProfile"@), "name"@) is Some
        &&& str_member(sub_member(v, "selectedProfile"@), "id"@) is Some
    }
}

/// Whether the string member `key` of `v` is there.
fn has_str(v: &JsonValue, key: &str) -> (b: bool)
    ensures
        b == (str_member(json_view(*v), key@) is Some),
{
    match v.get(key) {
        Some(x) => x.as_str().is_some(),
        None => false,
    }
}

/// Whether an authentication server's answer can be read (see
/// `auth_answer_readable`).
pub fn is_auth_answer_readable(v: &JsonValue) -> (b: bool)
    ensures
        b == auth_answer_readable(json_view(*v)),
{
    if has_str(v, "error") {
        has_str(v, "errorMessage")
    } else {
        let profile_ok = match v.get("selectedProfile") {
            Some(p) => has_str(p, "name") && has_str(p, "id"),
            None => false,
        };
        has_str(v, "accessToken") && profile_ok
    }
}

/// The object with the given members, whose views are `view`.
fn object(members: Vec<(String, JsonValue)>, Ghost(view): Ghost<Seq<(Seq<char>, JsonView)>>) -> (v: JsonValue)
    requires
        members@.len() == view.len(),
        forall|i: int| 0 <= i < view.len() ==> (#[trigger] members@[i]).0@ == view[i].0 && json_view(members@[i].1) == view[i].1,
    ensures
        json_view(v) == JsonView::Object(view),
{
    proof {
        lemma_json_members_index(members@);
        assert(json_members_view(members@) =~= view);
    }
    JsonValue::Object(members)
}

impl Profile {
    /// The body that logs `username` in with `password`, for the client
    /// known by `token`.
    pub fn login_request(username: &str, password: &str, token: &str) -> (v: JsonValue)
        ensures
            json_view(v) == login_request_view(username@, password@, token@),
    {
        let mut agent: Vec<(String, JsonValue)> = Vec::new();
        agent.push(("name".to_owned(), JsonValue::String("Minecraft".to_owned())));
        agent.push(("version".to_owned(), JsonValue::Number(Some(1))));
        let ghost view: Seq<(Seq<char>, JsonView)> = seq![
            ("name"@, JsonView::Str("Minecraft"@)),
            ("version"@, JsonView::Number(Some(1i64))),
        ];
        let agent = object(agent, Ghost(view));
        let mut m: Vec<(String, JsonValue)> = Vec::new();
        m.push(("username".to_owned(), JsonValue::String(username.to_owned())));
        m.push(("password".to_owned(), JsonValue::String(password.to_owned())));
        m.push(("clientToken".to_owned(), JsonValue::String(token.to_owned())));
        m.push(("agent".to_owned(), agent));
        let ghost view: Seq<(Seq<char>, JsonView)> = seq![
            ("username"@, JsonView::Str(username@)),
            ("password"@, JsonView::Str(password@)),
            ("clientToken"@, JsonView::Str(token@)),
            ("agent"@, JsonView::Object(seq![
                ("name"@, JsonView::Str("Minecraft"@)),
                ("version"@, JsonView::Number(Some(1i64))),
            ])),
        ];
        object(m, Ghost(view))
    }

    /// The body that checks, and if need be refreshes, the profile's token
    /// for the client known by `token`.
    pub fn refresh_request(&self, token: &str) -> (v: JsonValue)
        ensures
            json_view(v) == JsonView::Object(seq![
                ("accessToken"@, JsonView::Str(self.access_token@)),
                ("clientToken"@, JsonView::Str(token@)),
            ]),
    {
        let mut m: Vec<(String, JsonValue)> = Vec::new();
        m.push(("accessToken".to_owned(), JsonValue::String(self.access_token.clone())));
        m.push(("clientToken".to_owned(), JsonValue::String(token.to_owned())));
        let ghost view: Seq<(Seq<char>, JsonView)> = seq![
            ("accessToken"@, JsonView::Str(self.access_token@)),
            ("clientToken"@, JsonView::Str(token@)),
        ];
        object(m, Ghost(view))
    }

    /// The body that tells the session server the profile is joining the
    /// server whose hash (see `server_hash`) is `server_id`.
    pub fn join_request(&self, server_id: &str) -> (v: JsonValue)
        ensures
            json_view(v) == JsonView::Object(seq![
                ("accessToken"@, JsonView::Str(self.access_token@)),
                ("selectedProfile"@, JsonView::Str(self.id@)),
                ("serverId"@, JsonView::Str(server_id@)),
            ]),
    {
        let mut m: Vec<(String, JsonValue)> = Vec::new();
        m.push(("accessToken".to_owned(), JsonValue::String(self.access_token.clone())));
        m.push(("selectedProfile".to_owned(), JsonValue::String(self.id.clone())));
        m.push(("serverId".to_owned(), JsonValue::String(server_id.to_owned())));
        let ghost view: Seq<(Seq<char>, JsonView)> = seq![
            ("accessToken"@, JsonView::Str(self.access_token@)),
            ("selectedProfile"@, JsonView::Str(self.id@)),
            ("serverId"@, JsonView::Str(server_id@)),
        ];
        object(m, Ghost(view))
    }

    /// Reads the authentication server's answer to a login or a refresh: its
    /// error and message, or the profile it selected with its new token.
    pub fn from_auth_answer(answer: &JsonValue) -> (r: Result<Profile, Error>)
        requires
            auth_answer_readable(json_view(*answer)),
        ensures
            ({
                let v = json_view(*answer);
                match str_member(v, "error"@) {
                    Some(e) => r matches Err(Error::Message(m))
                        && m@ == e + ": "@ + str_member(v, "errorMessage"@)->0,
                    None => r matches Ok(p) && {
                        &&& p.username@ == str_member(sub_member(v, "selectedProfile"@), "name"@)->0
                        &&& p.id@ == str_member(sub_member(v, "selectedProfile"@), "id"@)->0
                        &&& p.access_token@ == str_member(v, "accessToken"@)->0
                    },
                }
            }),
    {
        let error = match answer.get("error") {
            Some(x) => x.as_str(),
            None => None,
        };
        if let Some(error) = error {
            let message = answer.get("errorMessage").unwrap().as_str().unwrap();
            let mut m: Vec<char> = Vec::new();
            push_chars(&mut m, error);
            push_chars(&mut m, ": ");
            push_chars(&mut m, message);
            return Err(Error::Message(string_from_chars(m.as_slice())));
        }
        let profile = answer.get("selectedProfile").unwrap();
        Ok(Profile {
            username: profile.get("name").unwrap().as_str().unwrap().to_owned(),
            id: profile.get("id").unwrap().as_str().unwrap().to_owned(),
            access_token: answer.get("accessToken").unwrap().as_str().unwrap().to_owned(),
        })
    }

    /// Whether the profile has a name, an id and a token.
    pub fn is_complete(&self) -> (b: bool)
        ensures
            b == (self.username@.len() > 0 && self.id@.len() > 0 && self.access_token@.len() > 0),
    {
        !self.username.as_str().is_empty() && !self.id.as_str().is_empty() && !self.access_token.as_str().is_empty()
    }
}


/// 256 to the power `n`.
pub open spec fn pow256(n: nat) -> nat
    decreases n,
{
    if n == 0 { 1 } else { 256 * pow256((n - 1) as nat) }
}

/// The unsigned big-endian value of a byte string.
pub open spec fn be_value(s: Seq<u8>) -> nat
    decreases s.len(),
{
    if s.len() == 0 { 0 } else { (be_value(s.drop_last()) * 256 + s.last()) as nat }
}

/// The `n`-byte big-endian encoding of `v` (taken modulo `256^n`).
pub open spec fn be_bytes(v: nat, n: nat) -> Seq<u8>
    decreases n,
{
    if n == 0 { Seq::empty() } else { be_bytes(v / 256, (n - 1) as nat).push((v % 256) as u8) }
}

proof fn lemma_pow256_pos(n: nat)
    ensures
        pow256(n) >= 1,
    decreases n,
{
    if n > 0 {
        lemma_pow256_pos((n - 1) as nat);
    }
}

proof fn lemma_be_value_bound(s: Seq<u8>)
    ensures
        be_value(s) < pow256(s.len()),
    decreases s.len(),
{
    if s.len() > 0 {
        lemma_be_value_bound(s.drop_last());
        let a = be_value(s.drop_last());
        let p = pow256((s.len() - 1) as nat);
        let b = s.last() as nat;
        assert(a * 256 + b < 256 * p) by (nonlinear_arith)
            requires a < p, b < 256;
    }
}

proof fn lemma_be_value_single(x: u8)
    ensures
        be_value(seq![x]) == x,
{
    assert(seq![x].drop_last() =~= Seq::<u8>::empty());
    assert(be_value(Seq::<u8>::empty()) == 0);
    assert(seq![x].last() == x);
}

proof fn lemma_be_value_concat(a: Seq<u8>, b: Seq<u8>)
    ensures
        be_value(a + b) == be_value(a) * pow256(b.len()) + be_value(b),
    decreases b.len(),
{
    if b.len() == 0 {
        assert(a + b =~= a);
        assert(pow256(0) == 1);
        assert(be_value(b) == 0);
        assert(be_value(a) * 1 == be_value(a));
    } else {
        lemma_be_value_concat(a, b.drop_last());
        assert((a + b).drop_last() =~= a + b.drop_last());
        let va = be_value(a) as int;
        let p = pow256((b.len() - 1) as nat) as int;
        let vb = be_value(b.drop_last()) as int;
        let l = b.last() as int;
        assert((a + b).last() == b.last());
        assert(be_value(a + b) == be_value(a + b.drop_last()) * 256 + l);
        assert(be_value(b) == vb * 256 + l);
        assert(pow256(b.len()) == 256 * p);
        assert((va * p + vb) * 256 + l == va * (256 * p) + (vb * 256 + l)) by (nonlinear_arith);
        assert(be_value(a + b.drop_last()) == va * p + vb);
        assert(be_value(a) * pow256(b.len()) == va * (256 * p));
    }
}

/// Reading the encoding of a byte string's value gives the string back.
proof fn lemma_be_bytes_value(s: Seq<u8>)
    ensures
        be_bytes(be_value(s), s.len()) == s,
    decreases s.len(),
{
    if s.len() > 0 {
        let a = be_value(s.drop_last());
        let l = s.last() as nat;
        assert((a * 256 + l) / 256 == a && (a * 256 + l) % 256 == l) by (nonlinear_arith)
            requires l < 256;
        lemma_be_bytes_value(s.drop_last());
        assert(be_bytes(be_value(s), s.len()) =~= s);
    }
}

/// Replaces a big-endian number by its two's complement negation: the value
/// becomes `256^n - v` modulo `256^n`.
pub fn twos_compliment(data: &mut Vec<u8>)
    ensures
        final(data)@.len() == old(data)@.len(),
        be_value(final(data)@) == (pow256(old(data)@.len()) - be_value(old(data)@)) % (pow256(old(data)@.len()) as int),
{
    let ghost orig = data@;
    let n = data.len();
    let mut carry = true;
    let mut i = n;
    proof {
        assert(data@.subrange(n as int, n as int) =~= Seq::<u8>::empty());
        assert(orig.subrange(n as int, n as int) =~= Seq::<u8>::empty());
    }
    while i > 0
        invariant
            orig.len() == n,
            data@.len() == n,
            i <= n,
            data@.subrange(0, i as int) == orig.subrange(0, i as int),
            be_value(data@.subrange(i as int, n as int)) == (pow256((n - i) as nat) - be_value(orig.subrange(i as int, n as int)))
                % (pow256((n - i) as nat) as int),
            carry == (be_value(orig.subrange(i as int, n as int)) == 0),
        decreases i,
    {
        let j = i - 1;
        let x = data[j];
        let ghost old_tail = data@.subrange(i as int, n as int);
        proof {
            assert(data@.subrange(0, i as int)[j as int] == orig.subrange(0, i as int)[j as int]);
        }
        let y = !x;
        let ghost was_carry = carry;
        let mut z = y;
        if carry {
            carry = y == 0xFF;
            z = y.wrapping_add(1);
        }
        data.set(j, z);
        proof {
            let p: int = pow256((n - i) as nat) as int;
            let v: int = be_value(orig.subrange(i as int, n as int)) as int;
            lemma_pow256_pos((n - i) as nat);
            lemma_be_value_bound(orig.subrange(i as int, n as int));
            assert(y == 255 - x) by (bit_vector) requires y == !x;
            assert(data@.subrange(j as int, n as int) =~= seq![z] + old_tail);
            assert(orig.subrange(j as int, n as int) =~= seq![x] + orig.subrange(i as int, n as int));
            lemma_be_value_concat(seq![z], old_tail);
            lemma_be_value_concat(seq![x], orig.subrange(i as int, n as int));
            lemma_be_value_single(z);
            lemma_be_value_single(x);
            assert(pow256((n - j) as nat) == 256 * p);
            if was_carry {
                assert(v == 0);
                assert(((p - 0) as int) % (p as int) == 0) by (nonlinear_arith) requires p >= 1;
                assert(be_value(old_tail) == 0);
                assert(z == (256 - x) % 256);
                let q = (256 - x) as int;
                assert((256 * p - (x * p + 0)) % (256 * p) == (q % 256) * p) by (nonlinear_arith)
                    requires p >= 1, q == 256 - x, 0 <= x < 256;
            } else {
                assert(v > 0);
                assert(((p - v) as int) % (p as int) == p - v) by (nonlinear_arith) requires 0 < v < p;
                assert(z == 255 - x);
                assert((256 * p - (x * p + v)) % (256 * p) == (255 - x) * p + (p - v)) by (nonlinear_arith)
                    requires 0 < v < p, 0 <= x < 256;
            }
            assert(data@.subrange(0, j as int) =~= orig.subrange(0, j as int)) by {
                assert(data@.subrange(0, j as int) =~= data@.subrange(0, i as int).subrange(0, j as int)) by {};
            }
            assert(carry == (be_value(orig.subrange(j as int, n as int)) == 0)) by {
                assert(x * p + v == 0 <==> (x == 0 && v == 0)) by (nonlinear_arith) requires p >= 1, v >= 0, x >= 0;
            }
        }
        i = j;
    }
    proof {
        assert(data@.subrange(0, n as int) =~= data@);
        assert(orig.subrange(0, n as int) =~= orig);
    }
}

/// Negating twice gives the number back: for a value `v` of `n` bytes,
/// `256^n - v` taken modulo `256^n`, negated again, is `v`.
pub proof fn lemma_negate_twice(v: nat, n: nat)
    requires
        v < pow256(n),
    ensures
        ({
            let p = pow256(n) as int;
            let once = (p - v) % p;
            (p - once) % p == v
        }),
{
    lemma_pow256_pos(n);
    let p = pow256(n) as int;
    let w = v as int;
    if w == 0 {
        assert((p - 0) % p == 0) by (nonlinear_arith) requires p >= 1;
        assert((p - 0) % p == 0) by (nonlinear_arith) requires p >= 1;
    } else {
        assert((p - w) % p == p - w) by (nonlinear_arith) requires 0 < w < p;
        assert((p - (p - w)) % p == w) by (nonlinear_arith) requires 0 < w < p;
    }
}

/// A lower-case hexadecimal digit for a value below 16.
pub open spec fn hex_lower(v: u8) -> char {
    if v < 10 { ((v + 48) as u8) as char } else { ((v + 87) as u8) as char }
}

/// Each byte as two lower-case hexadecimal digits.
pub open spec fn hex_text(s: Seq<u8>) -> Seq<char>
    decreases s.len(),
{
    if s.len() == 0 {
        Seq::empty()
    } else {
        hex_text(s.drop_last()) + seq![hex_lower(s.last() / 16), hex_lower(s.last() % 16)]
    }
}

/// `s` without its leading `0` characters.
pub open spec fn trim_leading_zeros(s: Seq<char>) -> Seq<char>
    decreases s.len(),
{
    if s.len() > 0 && s[0] == '0' { trim_leading_zeros(s.drop_first()) } else { s }
}

/// The hash text that the session server expects: the digest read as a
/// signed (two's complement) big-endian number, in lower-case hexadecimal
/// without leading zeros and with a `-` when negative.
pub open spec fn server_hash_text(digest: Seq<u8>) -> Seq<char> {
    let n = digest.len();
    if digest[0] >= 0x80 {
        seq!['-'] + trim_leading_zeros(hex_text(be_bytes((pow256(n) - be_value(digest)) as nat, n)))
    } else {
        trim_leading_zeros(hex_text(digest))
    }
}

fn hex_lower_exec(v: u8) -> (c: char)
    requires
        v < 16,
    ensures
        c == hex_lower(v),
{
    if v < 10 { (v + 48) as char } else { (v + 87) as char }
}

/// The SHA-1 digest of a byte string.
pub uninterp spec fn sha1_of(data: Seq<u8>) -> Seq<u8>;

/// openssl's `sha::sha1`: the SHA-1 digest of `data`, which is 20 bytes long.
#[verifier::external_body]
fn sha1(data: &[u8]) -> (d: Vec<u8>)
    ensures
        d@ == sha1_of(data@),
        d@.len() == 20,
{
    openssl::sha::sha1(data).to_vec()
}

/// The hash text that joining a server sends: the session hash of the
/// server's id (as UTF-8), the shared secret and the server's public key.
pub fn join_server_hash(server_id: &str, shared_key: &[u8], public_key: &[u8]) -> (s: String)
    ensures
        s@ == server_hash_text(sha1_of(server_id.spec_bytes() + shared_key@ + public_key@)),
{
    let mut data: Vec<u8> = Vec::new();
    append_bytes(&mut data, server_id.as_bytes());
    append_bytes(&mut data, shared_key);
    append_bytes(&mut data, public_key);
    let digest = sha1(data.as_slice());
    server_hash(digest)
}

/// Appends `b` to `out`.
fn append_bytes(out: &mut Vec<u8>, b: &[u8])
    ensures
        final(out)@ == old(out)@ + b@,
{
    let mut k: usize = 0;
    while k < b.len()
        invariant
            k <= b@.len(),
            out@ == old(out)@ + b@.subrange(0, k as int),
        decreases b@.len() - k,
    {
        out.push(b[k]);
        proof {
            assert(b@.subrange(0, k + 1) =~= b@.subrange(0, k as int).push(b@[k as int]));
        }
        k = k + 1;
    }
    proof {
        assert(b@.subrange(0, b@.len() as int) =~= b@);
    }
}

/// Turns the SHA-1 digest of the server id and keys into the hash text that
/// joining a server sends (see `server_hash_text`).
pub fn server_hash(digest: Vec<u8>) -> (s: String)
    requires
        digest@.len() >= 1,
    ensures
        s@ == server_hash_text(digest@),
{
    let mut hash = digest;
    let negative = (hash[0] & 0x80) == 0x80;
    proof {
        let b = hash@[0];
        assert(((b & 0x80) == 0x80) == (b >= 0x80)) by (bit_vector);
    }
    if negative {
        twos_compliment(&mut hash);
        proof {
            let n = digest@.len();
            let p: int = pow256(n) as int;
            let v: int = be_value(digest@) as int;
            lemma_be_value_bound(digest@);
            assert(digest@ =~= seq![digest@[0]] + digest@.drop_first());
            lemma_be_value_concat(seq![digest@[0]], digest@.drop_first());
            lemma_be_value_single(digest@[0]);
            assert(pow256(n) == 256 * pow256((n - 1) as nat));
            let q = pow256((n - 1) as nat);
            let h = digest@[0] as int;
            assert(h * q >= 1) by (nonlinear_arith) requires h >= 128, q >= 1;
            lemma_pow256_pos((n - 1) as nat);
            assert(v > 0);
            assert(((p - v) as int) % (p as int) == p - v) by (nonlinear_arith) requires 0 < v < p;
            lemma_be_bytes_value(hash@);
        }
    }
    let mut text: Vec<char> = Vec::new();
    let mut k: usize = 0;
    while k < hash.len()
        invariant
            k <= hash@.len(),
            text@ == hex_text(hash@.subrange(0, k as int)),
        decreases hash@.len() - k,
    {
        let b = hash[k];
        text.push(hex_lower_exec(b / 16));
        text.push(hex_lower_exec(b % 16));
        proof {
            assert(hash@.subrange(0, k + 1).drop_last() =~= hash@.subrange(0, k as int));
            assert(text@ =~= hex_text(hash@.subrange(0, k + 1)));
        }
        k = k + 1;
    }
    proof {
        assert(hash@.subrange(0, hash@.len() as int) =~= hash@);
    }
    let mut start: usize = 0;
    proof {
        assert(text@.subrange(0, text@.len() as int) =~= text@);
    }
    while start < text.len() && text[start] == '0'
        invariant
            start <= text@.len(),
            trim_leading_zeros(text@.subrange(start as int, text@.len() as int)) == trim_leading_zeros(text@),
        decreases text@.len() - start,
    {
        proof {
            assert(text@.subrange(start as int, text@.len() as int).drop_first()
                =~= text@.subrange(start + 1, text@.len() as int));
        }
        start = start + 1;
    }
    let mut out: Vec<char> = Vec::new();
    if negative {
        out.push('-');
    }
    let ghost head = out@;
    let mut k = start;
    while k < text.len()
        invariant
            start <= k <= text@.len(),
            out@ == head + text@.subrange(start as int, k as int),
        decreases text@.len() - k,
    {
        out.push(text[k]);
        proof {
            assert(text@.subrange(start as int, k + 1) =~= text@.subrange(start as int, k as int).push(text@[k as int]));
        }
        k = k + 1;
    }
    proof {
        assert(text@.subrange(start as int, text@.len() as int) == trim_leading_zeros(text@));
        if !negative {
            assert(out@ =~= trim_leading_zeros(hex_text(digest@)));
        } else {
            assert(out@ =~= seq!['-'] + trim_leading_zeros(hex_text(hash@)));
        }
    }
    crate::text::string_from_chars(out.as_slice())
}

} // verus!
