//! The protocol's laws, proved from the specifications that the signing and
//! verification services ensure.

use vstd::prelude::*;
use vstd::seq_lib::lemma_sorted_unique;

use crate::ErrorCode;
use crate::canonical::{canonical_params, joined_pair, joined_params};
use crate::crypto::{b64_decode_of, pbkdf2_key_of};
use crate::keys::PBKDF2_ROUNDS;
use crate::order::{bytes_ge, lemma_bytes_ge_total_ordering};
use crate::service::{fresh, sign_spec, verify_error_spec, SignedRequestView,
    VerifiableRequestView};

verus! {

/// Mapping a function over two sequences with the same multiset of elements
/// yields the same multiset of images.
proof fn lemma_map_values_multiset<A, B>(s1: Seq<A>, s2: Seq<A>, f: spec_fn(A) -> B)
    requires
        s1.to_multiset() == s2.to_multiset(),
    ensures
        s1.map_values(f).to_multiset() == s2.map_values(f).to_multiset(),
    decreases s1.len(),
{
    broadcast use vstd::multiset::group_multiset_axioms;

    s1.to_multiset_ensures();
    s2.to_multiset_ensures();
    s1.map_values(f).to_multiset_ensures();
    s2.map_values(f).to_multiset_ensures();
    if s1.len() == 0 {
        assert(s2.len() == 0);
        assert(s1.map_values(f) =~= s2.map_values(f));
    } else {
        let x = s1[0];
        assert(s1.contains(x));
        assert(s2.to_multiset().count(x) > 0);
        assert(s2.contains(x));
        let i = choose|i: int| 0 <= i < s2.len() && s2[i] == x;
        let s1r = s1.remove(0);
        let s2r = s2.remove(i);
        assert(s1r.to_multiset() =~= s1.to_multiset().remove(x));
        assert(s2r.to_multiset() =~= s2.to_multiset().remove(x));
        lemma_map_values_multiset(s1r, s2r, f);
        assert(s1r.map_values(f) =~= s1.map_values(f).remove(0));
        assert(s2r.map_values(f) =~= s2.map_values(f).remove(i));
        let m1 = s1.map_values(f).to_multiset();
        let m2 = s2.map_values(f).to_multiset();
        assert(s1.map_values(f).remove(0).to_multiset() =~= m1.remove(f(x)));
        assert(s2.map_values(f)[i] == f(x));
        assert(s2.map_values(f).remove(i).to_multiset() =~= m2.remove(f(x)));
        assert(m1.remove(f(x)) == m2.remove(f(x)));
        assert(s1.map_values(f).contains(f(x))) by {
            assert(s1.map_values(f)[0] == f(x));
        }
        assert(s2.map_values(f).contains(f(x))) by {
            assert(s2.map_values(f)[i] == f(x));
        }
        assert(m1.count(f(x)) > 0);
        assert(m2.count(f(x)) > 0);
        assert forall|b: B| m1.count(b) == m2.count(b) by {
            if b == f(x) {
                assert(m1.remove(f(x)).count(b) == m1.count(b) - 1);
                assert(m2.remove(f(x)).count(b) == m2.count(b) - 1);
            } else {
                assert(m1.remove(f(x)).count(b) == m1.count(b));
                assert(m2.remove(f(x)).count(b) == m2.count(b));
            }
        }
        assert(m1 =~= m2);
    }
}

/// Determinism: two sign calls whose requests carry identical fields yield
/// identical outcomes — in particular, byte-identical signatures.
pub proof fn lemma_sign_deterministic(a: SignedRequestView, b: SignedRequestView)
    requires
        a.method == b.method,
        a.path == b.path,
        a.params == b.params,
        a.nonce == b.nonce,
        a.salt == b.salt,
        a.timestamp == b.timestamp,
        a.key_base64 == b.key_base64,
        a.password == b.password,
        a.app_salt == b.app_salt,
    ensures
        sign_spec(a) == sign_spec(b),
{
    assert(a =~= b);
}

/// Canonical ordering: permuting the insertion order of the parameter pairs
/// never changes the outcome of signing.
pub proof fn lemma_sign_order_irrelevant(a: SignedRequestView, b: SignedRequestView)
    requires
        a.params.to_multiset() == b.params.to_multiset(),
        a.method == b.method,
        a.path == b.path,
        a.nonce == b.nonce,
        a.salt == b.salt,
        a.timestamp == b.timestamp,
        a.key_base64 == b.key_base64,
        a.password == b.password,
        a.app_salt == b.app_salt,
    ensures
        sign_spec(a) == sign_spec(b),
{
    lemma_map_values_multiset(a.params, b.params, |p: (Seq<u8>, Seq<u8>)| joined_pair(p));
    lemma_bytes_ge_total_ordering();
    joined_params(a.params).lemma_sort_by_ensures(bytes_ge());
    joined_params(b.params).lemma_sort_by_ensures(bytes_ge());
    assert(canonical_params(a.params).to_multiset() == canonical_params(b.params).to_multiset());
    lemma_sorted_unique(canonical_params(a.params), canonical_params(b.params), bytes_ge());
    assert(canonical_params(a.params) == canonical_params(b.params));
}

/// Key equivalence: signing with a raw key credential that decodes to the
/// key derived from a password and salt is the same as signing with that
/// password and salt.
pub proof fn lemma_key_equivalence(a: SignedRequestView, b: SignedRequestView)
    requires
        a.key_base64 is Some,
        a.password is None,
        a.app_salt is None,
        b.key_base64 is None,
        b.password is Some,
        b.app_salt is Some,
        b64_decode_of(a.key_base64->Some_0) == Some(
            pbkdf2_key_of(b.password->Some_0, b.app_salt->Some_0, PBKDF2_ROUNDS),
        ),
        a.method == b.method,
        a.path == b.path,
        a.params == b.params,
        a.nonce == b.nonce,
        a.salt == b.salt,
        a.timestamp == b.timestamp,
    ensures
        sign_spec(a) == sign_spec(b),
{
}

/// Round trip: a signature that `sign` produced verifies against the same
/// request fields when the verifier's clock reads the request's timestamp.
pub proof fn lemma_sign_verify_round_trip(
    r: SignedRequestView,
    v: VerifiableRequestView,
    s: Seq<u8>,
)
    requires
        sign_spec(r) == Ok::<Seq<u8>, ErrorCode>(s),
        v.request == r,
        v.sig == Some(s),
        v.server_ts == Some(r.timestamp),
    ensures
        verify_error_spec(v) is None,
{
}

/// Two concatenations that differ only in equal-length middles differ
/// somewhere in that middle.
proof fn lemma_mid_sensitive(a: Seq<u8>, x: Seq<u8>, y: Seq<u8>, b: Seq<u8>)
    requires
        x.len() == y.len(),
        x != y,
    ensures
        a + x + b != a + y + b,
{
    assert(exists|k: int| 0 <= k < x.len() && x[k] != y[k]) by {
        if forall|k: int| 0 <= k < x.len() ==> x[k] == #[trigger] y[k] {
            assert(x =~= y);
        }
    }
    let k = choose|k: int| 0 <= k < x.len() && x[k] != y[k];
    assert((a + x + b)[a.len() + k] == x[k]);
    assert((a + y + b)[a.len() + k] == y[k]);
}

/// Tamper sensitivity at the message level: changing the path, without even
/// changing its length, always changes the canonical message that is hashed.
/// (Whether the keyed hash of two different messages can collide is a
/// property of HMAC itself, outside this library's statements.)
pub proof fn lemma_canonical_path_sensitive(
    method: Seq<u8>,
    path1: Seq<u8>,
    path2: Seq<u8>,
    params: Seq<(Seq<u8>, Seq<u8>)>,
    nonce: Seq<u8>,
    salt: Seq<u8>,
    timestamp: u64,
)
    requires
        path1.len() == path2.len(),
        path1 != path2,
    ensures
        crate::canonical::canonical_message(method, path1, params, nonce, salt, timestamp)
            != crate::canonical::canonical_message(method, path2, params, nonce, salt, timestamp),
{
    let a = seq![118u8, 51u8, 35u8] + method + seq![35u8];
    let b = seq![35u8] + crate::canonical::join_amp(canonical_params(params)) + seq![35u8] + nonce
        + seq![35u8] + crate::canonical::salt_fragment(salt) + seq![35u8]
        + crate::canonical::dec_digits(timestamp as nat);
    assert(crate::canonical::canonical_message(method, path1, params, nonce, salt, timestamp) =~= a
        + path1 + b);
    assert(crate::canonical::canonical_message(method, path2, params, nonce, salt, timestamp) =~= a
        + path2 + b);
    lemma_mid_sensitive(a, path1, path2, b);
}

/// Tamper sensitivity at the message level: changing the nonce, without even
/// changing its length, always changes the canonical message that is hashed.
pub proof fn lemma_canonical_nonce_sensitive(
    method: Seq<u8>,
    path: Seq<u8>,
    params: Seq<(Seq<u8>, Seq<u8>)>,
    nonce1: Seq<u8>,
    nonce2: Seq<u8>,
    salt: Seq<u8>,
    timestamp: u64,
)
    requires
        nonce1.len() == nonce2.len(),
        nonce1 != nonce2,
    ensures
        crate::canonical::canonical_message(method, path, params, nonce1, salt, timestamp)
            != crate::canonical::canonical_message(method, path, params, nonce2, salt, timestamp),
{
    let a = seq![118u8, 51u8, 35u8] + method + seq![35u8] + path + seq![35u8]
        + crate::canonical::join_amp(canonical_params(params)) + seq![35u8];
    let b = seq![35u8] + crate::canonical::salt_fragment(salt) + seq![35u8]
        + crate::canonical::dec_digits(timestamp as nat);
    assert(crate::canonical::canonical_message(method, path, params, nonce1, salt, timestamp) =~= a
        + nonce1 + b);
    assert(crate::canonical::canonical_message(method, path, params, nonce2, salt, timestamp) =~= a
        + nonce2 + b);
    lemma_mid_sensitive(a, nonce1, nonce2, b);
}

/// Two concatenations with the same prefix and different suffixes differ.
proof fn lemma_suffix_sensitive(a: Seq<u8>, x: Seq<u8>, y: Seq<u8>)
    requires
        x != y,
    ensures
        a + x != a + y,
{
    if a + x == a + y {
        assert((a + x).len() == a.len() + x.len());
        assert((a + y).len() == a.len() + y.len());
        assert(x.len() == y.len());
        assert forall|k: int| 0 <= k < x.len() implies x[k] == y[k] by {
            assert((a + x)[a.len() + k] == x[k]);
            assert((a + y)[a.len() + k] == y[k]);
        }
        assert(x =~= y);
        assert(false);
    }
}

/// Tamper sensitivity at the message level: any change to the timestamp
/// changes the canonical message that is hashed.
pub proof fn lemma_canonical_timestamp_sensitive(
    method: Seq<u8>,
    path: Seq<u8>,
    params: Seq<(Seq<u8>, Seq<u8>)>,
    nonce: Seq<u8>,
    salt: Seq<u8>,
    ts1: u64,
    ts2: u64,
)
    requires
        ts1 != ts2,
    ensures
        crate::canonical::canonical_message(method, path, params, nonce, salt, ts1)
            != crate::canonical::canonical_message(method, path, params, nonce, salt, ts2),
{
    crate::canonical::lemma_dec_digits_injective(ts1 as nat, ts2 as nat);
    let a = seq![118u8, 51u8, 35u8] + method + seq![35u8] + path + seq![35u8]
        + crate::canonical::join_amp(canonical_params(params)) + seq![35u8] + nonce + seq![35u8]
        + crate::canonical::salt_fragment(salt) + seq![35u8];
    assert(crate::canonical::canonical_message(method, path, params, nonce, salt, ts1) =~= a
        + crate::canonical::dec_digits(ts1 as nat));
    assert(crate::canonical::canonical_message(method, path, params, nonce, salt, ts2) =~= a
        + crate::canonical::dec_digits(ts2 as nat));
    lemma_suffix_sensitive(
        a,
        crate::canonical::dec_digits(ts1 as nat),
        crate::canonical::dec_digits(ts2 as nat),
    );
}

/// Freshness boundary: a clock skew of exactly the window passes, one second
/// more does not.
pub proof fn lemma_freshness_boundary(server_ts: u64, timestamp: u64)
    ensures
        (if server_ts >= timestamp {
            server_ts - timestamp
        } else {
            timestamp - server_ts
        }) == 60 ==> fresh(server_ts, timestamp),
        (if server_ts >= timestamp {
            server_ts - timestamp
        } else {
            timestamp - server_ts
        }) == 61 ==> !fresh(server_ts, timestamp),
{
}

} // verus!
