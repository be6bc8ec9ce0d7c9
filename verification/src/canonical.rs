//! Canonical message construction: the single deterministic byte string,
//! built from a request's authenticated fields, that is the exact input to
//! the keyed hash.
//!
//! Shape: `v3#<method>#<path>#<param-block>#<nonce>#<salt-fragment>#<timestamp>`.
//! The parameter block lists each `key=value` pair, joined with `&`, in
//! descending lexicographic order of the full `key=value` string, so that
//! signer and verifier converge on one byte-identical string regardless of
//! how either stores its parameters.

use vstd::prelude::*;
use vstd::multiset::Multiset;
use vstd::relations::sorted_by;
use vstd::seq_lib::lemma_sorted_unique;

use crate::order::{bytes_ge, is_lex_leq, lemma_bytes_ge_total_ordering, lemma_lex_total,
    lemma_lex_trans, lex_leq};

verus! {

/// A parameter pair as the byte string `key=value`.
pub open spec fn joined_pair(p: (Seq<u8>, Seq<u8>)) -> Seq<u8> {
    p.0 + seq![61u8] + p.1
}

/// All parameter pairs, each as `key=value`, in their given order.
pub open spec fn joined_params(params: Seq<(Seq<u8>, Seq<u8>)>) -> Seq<Seq<u8>> {
    params.map_values(|p: (Seq<u8>, Seq<u8>)| joined_pair(p))
}

/// The `key=value` strings in canonical (descending lexicographic) order.
pub open spec fn canonical_params(params: Seq<(Seq<u8>, Seq<u8>)>) -> Seq<Seq<u8>> {
    joined_params(params).sort_by(bytes_ge())
}

/// Byte strings joined with `&`.
pub open spec fn join_amp(items: Seq<Seq<u8>>) -> Seq<u8>
    decreases items.len(),
{
    if items.len() == 0 {
        Seq::empty()
    } else if items.len() == 1 {
        items[0]
    } else {
        items[0] + seq![38u8] + join_amp(items.drop_first())
    }
}

/// The part of the salt that enters the message: bytes 5 to 15 when the salt
/// is longer than 15 bytes, the whole salt otherwise. The truncation is part
/// of the wire contract and must not be widened to the whole salt.
pub open spec fn salt_fragment(salt: Seq<u8>) -> Seq<u8> {
    if salt.len() > 15 {
        salt.subrange(5, 15)
    } else {
        salt
    }
}

/// The decimal digits of `n`, as ASCII bytes, most significant first.
pub open spec fn dec_digits(n: nat) -> Seq<u8>
    decreases n,
{
    if n < 10 {
        seq![(48 + n) as u8]
    } else {
        dec_digits(n / 10).push((48 + n % 10) as u8)
    }
}

/// Distinct numbers render to distinct decimal digit strings.
pub proof fn lemma_dec_digits_injective(m: nat, n: nat)
    requires
        m != n,
    ensures
        dec_digits(m) != dec_digits(n),
    decreases m + n,
{
    if m < 10 && n < 10 {
        assert(dec_digits(m)[0] == (48 + m) as u8);
        assert(dec_digits(n)[0] == (48 + n) as u8);
    } else if m < 10 {
        assert(dec_digits(n).len() >= 2) by {
            assert(dec_digits(n / 10).len() >= 1);
        }
    } else if n < 10 {
        assert(dec_digits(m).len() >= 2) by {
            assert(dec_digits(m / 10).len() >= 1);
        }
    } else {
        if m % 10 != n % 10 {
            if dec_digits(m) == dec_digits(n) {
                assert(dec_digits(m).last() == (48 + m % 10) as u8);
                assert(dec_digits(n).last() == (48 + n % 10) as u8);
                assert(false);
            }
        } else {
            assert(m / 10 != n / 10) by {
                vstd::arithmetic::div_mod::lemma_fundamental_div_mod(m as int, 10);
                vstd::arithmetic::div_mod::lemma_fundamental_div_mod(n as int, 10);
            }
            lemma_dec_digits_injective(m / 10, n / 10);
            if dec_digits(m) == dec_digits(n) {
                assert(dec_digits(m).drop_last() =~= dec_digits(m / 10));
                assert(dec_digits(n).drop_last() =~= dec_digits(n / 10));
                assert(false);
            }
        }
    }
}

/// The canonical message for one request: a pure function of the
/// authenticated fields alone.
pub open spec fn canonical_message(
    method: Seq<u8>,
    path: Seq<u8>,
    params: Seq<(Seq<u8>, Seq<u8>)>,
    nonce: Seq<u8>,
    salt: Seq<u8>,
    timestamp: u64,
) -> Seq<u8> {
    seq![118u8, 51u8, 35u8] + method + seq![35u8] + path + seq![35u8] + join_amp(
        canonical_params(params),
    ) + seq![35u8] + nonce + seq![35u8] + salt_fragment(salt) + seq![35u8] + dec_digits(
        timestamp as nat,
    )
}

/// The pairs a parameter vector holds, as mathematical byte strings.
pub open spec fn pairs_view(s: Seq<(Vec<u8>, Vec<u8>)>) -> Seq<(Seq<u8>, Seq<u8>)> {
    s.map_values(|p: (Vec<u8>, Vec<u8>)| (p.0@, p.1@))
}

/// The byte strings a vector of byte vectors holds.
pub open spec fn views(s: Seq<Vec<u8>>) -> Seq<Seq<u8>> {
    s.map_values(|v: Vec<u8>| v@)
}

/// Appends the bytes of `b` to `out`.
pub fn extend_bytes(out: &mut Vec<u8>, b: &Vec<u8>)
    ensures
        final(out)@ == old(out)@ + b@,
{
    let mut i: usize = 0;
    proof {
        assert(out@ =~= old(out)@ + b@.take(0));
    }
    while i < b.len()
        invariant
            i <= b.len(),
            out@ =~= old(out)@ + b@.take(i as int),
        decreases b.len() - i,
    {
        out.push(b[i]);
        proof {
            assert(old(out)@ + b@.take(i + 1) =~= (old(out)@ + b@.take(i as int)).push(
                b@[i as int],
            ));
        }
        i = i + 1;
    }
    proof {
        assert(b@.take(b@.len() as int) =~= b@);
        assert(out@ =~= old(out)@ + b@);
    }
}

/// The decimal rendering of `n`, most significant digit first.
pub fn u64_dec_bytes(n: u64) -> (r: Vec<u8>)
    ensures
        r@ == dec_digits(n as nat),
{
    let mut m: u64 = n;
    let mut digits: Vec<u8> = Vec::new();
    proof {
        assert(dec_digits(n as nat) =~= dec_digits(m as nat) + digits@);
    }
    while m >= 10
        invariant
            dec_digits(n as nat) =~= dec_digits(m as nat) + digits@,
        decreases m,
    {
        let d: u8 = (m % 10) as u8 + 48;
        proof {
            assert(dec_digits(m as nat) == dec_digits((m as nat) / 10).push(
                (48 + (m as nat) % 10) as u8,
            ));
            assert(dec_digits((m as nat) / 10).push(d) + digits@ =~= dec_digits((m as nat) / 10)
                + digits@.insert(0, d));
        }
        digits.insert(0, d);
        m = m / 10;
    }
    let d: u8 = m as u8 + 48;
    proof {
        assert(dec_digits(m as nat) =~= seq![d]);
        assert(seq![d] + digits@ =~= digits@.insert(0, d));
    }
    digits.insert(0, d);
    proof {
        assert(digits@ =~= dec_digits(n as nat));
    }
    digits
}

/// Sorts byte strings into descending lexicographic order by repeatedly
/// extracting a greatest remaining element.
fn sort_desc(items: Vec<Vec<u8>>) -> (r: Vec<Vec<u8>>)
    ensures
        sorted_by(views(r@), bytes_ge()),
        views(r@).to_multiset() == views(items@).to_multiset(),
{
    broadcast use vstd::seq_lib::group_to_multiset_ensures;

    let mut src = items;
    let mut out: Vec<Vec<u8>> = Vec::new();
    proof {
        assert(views(out@).to_multiset() =~= Multiset::empty());
        assert(views(out@).to_multiset().add(views(src@).to_multiset()) =~= views(
            items@,
        ).to_multiset());
    }
    while src.len() > 0
        invariant
            sorted_by(views(out@), bytes_ge()),
            views(out@).to_multiset().add(views(src@).to_multiset()) == views(
                items@,
            ).to_multiset(),
            forall|i: int, j: int|
                0 <= i < views(out@).len() && 0 <= j < views(src@).len() ==> lex_leq(
                    #[trigger] views(src@)[j],
                    #[trigger] views(out@)[i],
                ),
        decreases src.len(),
    {
        let mut idx: usize = 0;
        let mut j: usize = 1;
        proof {
            crate::order::lemma_lex_refl(views(src@)[0]);
        }
        while j < src.len()
            invariant
                src.len() > 0,
                idx < j,
                1 <= j <= src.len(),
                forall|k: int| 0 <= k < j ==> lex_leq(#[trigger] views(src@)[k], views(src@)[idx as int]),
            decreases src.len() - j,
        {
            if is_lex_leq(&src[idx], &src[j]) {
                proof {
                    assert forall|k: int| 0 <= k < j + 1 implies lex_leq(
                        #[trigger] views(src@)[k],
                        views(src@)[j as int],
                    ) by {
                        if k < j {
                            lemma_lex_trans(views(src@)[k], views(src@)[idx as int], views(
                                src@,
                            )[j as int]);
                        } else {
                            crate::order::lemma_lex_refl(views(src@)[j as int]);
                        }
                    }
                }
                idx = j;
            } else {
                proof {
                    lemma_lex_total(views(src@)[idx as int], views(src@)[j as int]);
                }
            }
            j = j + 1;
        }
        let ghost old_src = src@;
        let ghost old_out = out@;
        let m = src.remove(idx);
        out.push(m);
        proof {
            assert(views(old_src.remove(idx as int)) =~= views(old_src).remove(idx as int));
            assert(views(old_out.push(m)) =~= views(old_out).push(m@));
            assert(m@ == views(old_src)[idx as int]);
            views(old_src).to_multiset_ensures();
            views(old_out).to_multiset_ensures();
            assert(views(old_src).remove(idx as int).to_multiset() =~= views(
                old_src,
            ).to_multiset().remove(views(old_src)[idx as int]));
            assert(views(src@).to_multiset() =~= views(old_src).to_multiset().remove(m@));
            assert(views(old_out).push(m@).to_multiset() =~= views(old_out).to_multiset().insert(
                m@,
            ));
            assert(views(out@).to_multiset() =~= views(old_out).to_multiset().insert(m@));
            assert(views(out@).to_multiset().add(views(src@).to_multiset()) =~= views(
                old_out,
            ).to_multiset().add(views(old_src).to_multiset())) by {
                assert(views(old_src).to_multiset().count(m@) > 0);
            }
            // every new element of out still dominates everything left in src
            assert forall|i: int, jj: int|
                0 <= i < views(out@).len() && 0 <= jj < views(src@).len() implies lex_leq(
                #[trigger] views(src@)[jj],
                #[trigger] views(out@)[i],
            ) by {
                let s = views(src@)[jj];
                assert(s == views(old_src)[if jj < idx {
                    jj
                } else {
                    jj + 1
                }]);
                if i < views(old_out).len() {
                    assert(views(out@)[i] == views(old_out)[i]);
                } else {
                    assert(views(out@)[i] == m@);
                }
            }
            assert(sorted_by(views(out@), bytes_ge())) by {
                assert forall|i: int, jj: int| 0 <= i < jj < views(out@).len() implies bytes_ge()(
                    views(out@)[i],
                    views(out@)[jj],
                ) by {
                    if jj < views(old_out).len() {
                        assert(bytes_ge()(views(old_out)[i], views(old_out)[jj]));
                    } else {
                        assert(views(out@)[jj] == m@);
                        assert(lex_leq(views(old_src)[idx as int], views(old_out)[i]));
                    }
                }
            }
        }
    }
    proof {
        assert(views(src@).to_multiset() =~= Multiset::empty());
        assert(views(out@).to_multiset() =~= views(out@).to_multiset().add(
            views(src@).to_multiset(),
        ));
    }
    out
}

/// Joining one more item appends a separator and the item.
#[verifier::rlimit(50)]
proof fn lemma_join_amp_snoc(s: Seq<Seq<u8>>, x: Seq<u8>)
    ensures
        join_amp(s.push(x)) == if s.len() == 0 {
            x
        } else {
            join_amp(s) + seq![38u8] + x
        },
    decreases s.len(),
{
    if s.len() == 0 {
        assert(join_amp(s.push(x)) == s.push(x)[0]);
        assert(s.push(x)[0] == x);
    } else {
        assert(s.push(x).drop_first() =~= s.drop_first().push(x));
        lemma_join_amp_snoc(s.drop_first(), x);
        if s.len() == 1 {
            assert(join_amp(s.push(x)) == s[0] + seq![38u8] + x);
            assert(join_amp(s) == s[0]);
        } else {
            assert(join_amp(s.push(x)) == s[0] + seq![38u8] + (join_amp(s.drop_first())
                + seq![38u8] + x));
            assert(join_amp(s) == s[0] + seq![38u8] + join_amp(s.drop_first()));
            assert(s[0] + seq![38u8] + (join_amp(s.drop_first()) + seq![38u8] + x) =~= (s[0]
                + seq![38u8] + join_amp(s.drop_first())) + seq![38u8] + x);
        }
    }
}

/// Builds the canonical message for the given request fields.
///
/// The parameter pairs may arrive in any order: the result depends only on
/// which pairs are present, never on their order.
pub fn message(
    method: &Vec<u8>,
    path: &Vec<u8>,
    params: &Vec<(Vec<u8>, Vec<u8>)>,
    nonce: &Vec<u8>,
    salt: &Vec<u8>,
    timestamp: u64,
) -> (r: Vec<u8>)
    ensures
        r@ == canonical_message(method@, path@, pairs_view(params@), nonce@, salt@, timestamp),
{
    let ghost pv = pairs_view(params@);
    // join each pair into `key=value`
    let mut items: Vec<Vec<u8>> = Vec::new();
    let mut i: usize = 0;
    proof {
        assert(views(items@) =~= joined_params(pv).take(0));
    }
    while i < params.len()
        invariant
            i <= params.len(),
            pv == pairs_view(params@),
            views(items@) =~= joined_params(pv).take(i as int),
        decreases params.len() - i,
    {
        let ghost old_items = items@;
        let mut j: Vec<u8> = Vec::new();
        extend_bytes(&mut j, &params[i].0);
        j.push(61);
        extend_bytes(&mut j, &params[i].1);
        proof {
            assert(j@ =~= joined_pair(pv[i as int]));
        }
        items.push(j);
        proof {
            assert(views(items@) =~= views(old_items).push(j@));
            assert(joined_params(pv).take(i + 1) =~= joined_params(pv).take(i as int).push(
                joined_params(pv)[i as int],
            ));
        }
        i = i + 1;
    }
    proof {
        assert(joined_params(pv).take(joined_params(pv).len() as int) =~= joined_params(pv));
    }
    // canonical order
    let sorted = sort_desc(items);
    proof {
        lemma_bytes_ge_total_ordering();
        joined_params(pv).lemma_sort_by_ensures(bytes_ge());
        lemma_sorted_unique(views(sorted@), canonical_params(pv), bytes_ge());
        assert(views(sorted@) == canonical_params(pv));
    }
    // join with '&'
    let mut pblock: Vec<u8> = Vec::new();
    let mut k: usize = 0;
    proof {
        assert(views(sorted@).take(0) =~= Seq::<Seq<u8>>::empty());
        assert(pblock@ =~= join_amp(views(sorted@).take(0)));
    }
    while k < sorted.len()
        invariant
            k <= sorted.len(),
            views(sorted@) == canonical_params(pv),
            pblock@ =~= join_amp(views(sorted@).take(k as int)),
        decreases sorted.len() - k,
    {
        let ghost old_block = pblock@;
        if k > 0 {
            pblock.push(38);
        }
        extend_bytes(&mut pblock, &sorted[k]);
        proof {
            assert(views(sorted@).take(k + 1) =~= views(sorted@).take(k as int).push(
                views(sorted@)[k as int],
            ));
            lemma_join_amp_snoc(views(sorted@).take(k as int), views(sorted@)[k as int]);
            if k > 0 {
                assert(pblock@ =~= (old_block + seq![38u8]) + views(sorted@)[k as int]);
                assert(pblock@ =~= join_amp(views(sorted@).take(k as int)) + seq![38u8] + views(
                    sorted@,
                )[k as int]);
            } else {
                assert(old_block.len() == 0);
                assert(views(sorted@).take(0).len() == 0);
                assert(pblock@ =~= views(sorted@)[k as int]);
            }
        }
        k = k + 1;
    }
    proof {
        assert(views(sorted@).take(sorted@.len() as int) =~= views(sorted@));
        assert(pblock@ =~= join_amp(canonical_params(pv)));
    }
    // salt fragment
    let mut frag: Vec<u8> = Vec::new();
    if salt.len() > 15 {
        let mut s: usize = 5;
        proof {
            assert(frag@ =~= salt@.subrange(5, 5));
        }
        while s < 15
            invariant
                5 <= s <= 15,
                salt@.len() > 15,
                frag@ =~= salt@.subrange(5, s as int),
            decreases 15 - s,
        {
            frag.push(salt[s]);
            proof {
                assert(salt@.subrange(5, s + 1) =~= salt@.subrange(5, s as int).push(
                    salt@[s as int],
                ));
            }
            s = s + 1;
        }
    } else {
        extend_bytes(&mut frag, salt);
        proof {
            assert(frag@ =~= salt@);
        }
    }
    proof {
        assert(frag@ =~= salt_fragment(salt@));
    }
    // assemble
    let ts = u64_dec_bytes(timestamp);
    let mut out: Vec<u8> = Vec::new();
    out.push(118);
    out.push(51);
    out.push(35);
    extend_bytes(&mut out, method);
    out.push(35);
    extend_bytes(&mut out, path);
    out.push(35);
    extend_bytes(&mut out, &pblock);
    out.push(35);
    extend_bytes(&mut out, nonce);
    out.push(35);
    extend_bytes(&mut out, &frag);
    out.push(35);
    extend_bytes(&mut out, &ts);
    proof {
        assert(out@ =~= canonical_message(method@, path@, pv, nonce@, salt@, timestamp));
    }
    out
}

} // verus!
