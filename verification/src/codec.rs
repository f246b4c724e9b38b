//! Canonical binary schema of the admin wire protocol.
//!
//! Every value is written in one fixed form: integers as eight little-endian
//! bytes, byte strings and character strings length-prefixed, lists as a
//! count followed by the items in order, and tagged variants as a one-byte
//! tag followed by the fields.  Decoding rejects anything else, so encoding
//! followed by decoding returns the original value.

use vstd::prelude::*;
use vstd::bytes::{
    spec_u64_from_le_bytes, spec_u64_to_le_bytes, lemma_auto_spec_u64_to_from_le_bytes,
    u64_from_le_bytes, u64_to_le_bytes,
};
use vstd::slice::{slice_subrange, slice_to_vec};
use vstd::utf8::{valid_utf8, decode_utf8, encode_utf8, encode_utf8_valid_utf8,
    encode_utf8_decode_utf8};
use crate::messages::{
    AdminError, AdminMessage, AdminMessageView, AuthorizationType, Circuit,
    CircuitManagementPayload, CircuitManagementPayloadView, CircuitProposalVote,
    CircuitProposalVoteView, CircuitView, DurabilityType, PersistenceType, RouteType,
    SplinterNode, SplinterNodeView, SplinterService, SplinterServiceView, Vote,
};

verus! {

// ---------------------------------------------------------------------------
// Encoding, at the specification level
// ---------------------------------------------------------------------------

pub open spec fn enc_u64(n: u64) -> Seq<u8> {
    spec_u64_to_le_bytes(n)
}

pub open spec fn enc_bytes(b: Seq<u8>) -> Seq<u8> {
    enc_u64(b.len() as u64) + b
}

pub open spec fn enc_str(s: Seq<char>) -> Seq<u8> {
    enc_bytes(encode_utf8(s))
}

pub open spec fn bytes_fits(b: Seq<u8>) -> bool {
    b.len() <= u64::MAX
}

pub open spec fn str_fits(s: Seq<char>) -> bool {
    encode_utf8(s).len() <= u64::MAX
}

// ---------------------------------------------------------------------------
// Parsing, at the specification level.  A parser reads at an offset and
// yields the value together with the offset just past what it consumed.
// ---------------------------------------------------------------------------

pub open spec fn parse_u64(buf: Seq<u8>, i: int) -> Option<(u64, int)> {
    if 0 <= i && i + 8 <= buf.len() {
        Some((spec_u64_from_le_bytes(buf.subrange(i, i + 8)), i + 8))
    } else {
        None
    }
}

pub open spec fn parse_bytes(buf: Seq<u8>, i: int) -> Option<(Seq<u8>, int)> {
    match parse_u64(buf, i) {
        Some((n, j)) => {
            if j + n <= buf.len() {
                Some((buf.subrange(j, j + n), j + n))
            } else {
                None
            }
        },
        None => None,
    }
}

pub open spec fn parse_str(buf: Seq<u8>, i: int) -> Option<(Seq<char>, int)> {
    match parse_bytes(buf, i) {
        Some((b, j)) => {
            if valid_utf8(b) {
                Some((decode_utf8(b), j))
            } else {
                None
            }
        },
        None => None,
    }
}

pub open spec fn parse_tag(buf: Seq<u8>, i: int) -> Option<(u8, int)> {
    if 0 <= i && i + 1 <= buf.len() {
        Some((buf[i], i + 1))
    } else {
        None
    }
}

// ---------------------------------------------------------------------------
// Round trips for the primitives: parsing an encoding embedded in a larger
// buffer yields the encoded value and stops just past it.
// ---------------------------------------------------------------------------

/// A buffer that holds a concatenation holds each half at its own offset.
pub proof fn lemma_split_embed(buf: Seq<u8>, i: int, a: Seq<u8>, b: Seq<u8>)
    requires
        0 <= i,
        i + a.len() + b.len() <= buf.len(),
        buf.subrange(i, i + a.len() + b.len()) == a + b,
    ensures
        buf.subrange(i, i + a.len()) == a,
        buf.subrange(i + a.len(), i + a.len() + b.len()) == b,
{
    let whole = buf.subrange(i, i + a.len() + b.len());
    assert forall|k: int| 0 <= k < a.len() implies buf.subrange(i, i + a.len())[k] == a[k] by {
        assert(whole[k] == (a + b)[k]);
    }
    assert(buf.subrange(i, i + a.len()) =~= a);
    assert forall|k: int| 0 <= k < b.len() implies buf.subrange(
        i + a.len(),
        i + a.len() + b.len(),
    )[k] == b[k] by {
        assert(whole[a.len() + k] == (a + b)[a.len() + k]);
    }
    assert(buf.subrange(i + a.len(), i + a.len() + b.len()) =~= b);
}

pub proof fn lemma_parse_u64(buf: Seq<u8>, i: int, n: u64)
    requires
        0 <= i,
        i + 8 <= buf.len(),
        buf.subrange(i, i + 8) == enc_u64(n),
    ensures
        parse_u64(buf, i) == Some((n, i + 8)),
{
    lemma_auto_spec_u64_to_from_le_bytes();
}

pub proof fn lemma_parse_bytes(buf: Seq<u8>, i: int, b: Seq<u8>)
    requires
        0 <= i,
        bytes_fits(b),
        i + enc_bytes(b).len() <= buf.len(),
        buf.subrange(i, i + enc_bytes(b).len()) == enc_bytes(b),
    ensures
        parse_bytes(buf, i) == Some((b, i + enc_bytes(b).len())),
{
    lemma_auto_spec_u64_to_from_le_bytes();
    lemma_split_embed(buf, i, enc_u64(b.len() as u64), b);
    lemma_parse_u64(buf, i, b.len() as u64);
}

pub proof fn lemma_parse_str(buf: Seq<u8>, i: int, s: Seq<char>)
    requires
        0 <= i,
        str_fits(s),
        i + enc_str(s).len() <= buf.len(),
        buf.subrange(i, i + enc_str(s).len()) == enc_str(s),
    ensures
        parse_str(buf, i) == Some((s, i + enc_str(s).len())),
{
    broadcast use encode_utf8_valid_utf8, encode_utf8_decode_utf8;

    lemma_parse_bytes(buf, i, encode_utf8(s));
}

pub proof fn lemma_parse_tag(buf: Seq<u8>, i: int, t: u8)
    requires
        0 <= i,
        i + 1 <= buf.len(),
        buf.subrange(i, i + 1) == seq![t],
    ensures
        parse_tag(buf, i) == Some((t, i + 1)),
{
    assert(buf[i] == buf.subrange(i, i + 1)[0]);
}

// ---------------------------------------------------------------------------
// Executable encoders for the primitives
// ---------------------------------------------------------------------------

pub fn emit_u64(out: &mut Vec<u8>, n: u64)
    ensures
        final(out)@ == old(out)@ + enc_u64(n),
{
    let bytes = u64_to_le_bytes(n);
    out.extend_from_slice(bytes.as_slice());
}

pub fn emit_bytes(out: &mut Vec<u8>, b: &[u8])
    ensures
        final(out)@ == old(out)@ + enc_bytes(b@),
        bytes_fits(b@),
{
    emit_u64(out, b.len() as u64);
    out.extend_from_slice(b);
    proof {
        assert(final(out)@ =~= old(out)@ + enc_bytes(b@));
    }
}

pub fn emit_str(out: &mut Vec<u8>, s: &str)
    ensures
        final(out)@ == old(out)@ + enc_str(s@),
        str_fits(s@),
{
    emit_bytes(out, s.as_bytes());
}

pub fn emit_tag(out: &mut Vec<u8>, t: u8)
    ensures
        final(out)@ == old(out)@ + seq![t],
{
    out.push(t);
    proof {
        assert(final(out)@ =~= old(out)@ + seq![t]);
    }
}

// ---------------------------------------------------------------------------
// Executable decoders for the primitives
// ---------------------------------------------------------------------------

pub fn read_u64(buf: &[u8], pos: usize) -> (r: Option<(u64, usize)>)
    requires
        pos <= buf@.len(),
    ensures
        match r {
            Some((v, j)) => parse_u64(buf@, pos as int) == Some((v, j as int)) && pos <= j
                <= buf@.len(),
            None => parse_u64(buf@, pos as int) is None,
        },
{
    if buf.len() - pos >= 8 {
        let s = slice_subrange(buf, pos, pos + 8);
        Some((u64_from_le_bytes(s), pos + 8))
    } else {
        None
    }
}

pub fn read_bytes(buf: &[u8], pos: usize) -> (r: Option<(Vec<u8>, usize)>)
    requires
        pos <= buf@.len(),
    ensures
        match r {
            Some((v, j)) => parse_bytes(buf@, pos as int) == Some((v@, j as int)) && pos <= j
                <= buf@.len(),
            None => parse_bytes(buf@, pos as int) is None,
        },
{
    match read_u64(buf, pos) {
        Some((n, j)) => {
            if n <= (buf.len() - j) as u64 {
                let end = j + (n as usize);
                Some((slice_to_vec(slice_subrange(buf, j, end)), end))
            } else {
                None
            }
        },
        None => None,
    }
}

/// Relies on String::from_utf8: returns the string decoding of the bytes
/// exactly when they are valid UTF-8.
#[verifier::external_body]
fn bytes_to_string(v: Vec<u8>) -> (r: Option<String>)
    ensures
        r matches Some(s) ==> valid_utf8(v@) && s@ == decode_utf8(v@),
        valid_utf8(v@) ==> r is Some,
{
    String::from_utf8(v).ok()
}

pub fn read_string(buf: &[u8], pos: usize) -> (r: Option<(String, usize)>)
    requires
        pos <= buf@.len(),
    ensures
        match r {
            Some((v, j)) => parse_str(buf@, pos as int) == Some((v@, j as int)) && pos <= j
                <= buf@.len(),
            None => parse_str(buf@, pos as int) is None,
        },
{
    match read_bytes(buf, pos) {
        Some((b, j)) => {
            match bytes_to_string(b) {
                Some(s) => Some((s, j)),
                None => None,
            }
        },
        None => None,
    }
}

pub fn read_tag(buf: &[u8], pos: usize) -> (r: Option<(u8, usize)>)
    requires
        pos <= buf@.len(),
    ensures
        match r {
            Some((v, j)) => parse_tag(buf@, pos as int) == Some((v, j as int)) && pos <= j
                <= buf@.len(),
            None => parse_tag(buf@, pos as int) is None,
        },
{
    if pos < buf.len() {
        Some((*vstd::slice::slice_index_get(buf, pos), pos + 1))
    } else {
        None
    }
}

} // verus!

verus! {

// ---------------------------------------------------------------------------
// One-byte tags for the fixed enumerations
// ---------------------------------------------------------------------------

pub open spec fn auth_tag(a: AuthorizationType) -> u8 {
    match a {
        AuthorizationType::Trust => 1u8,
        AuthorizationType::Challenge => 2u8,
    }
}

pub open spec fn parse_auth(buf: Seq<u8>, i: int) -> Option<(AuthorizationType, int)> {
    match parse_tag(buf, i) {
        Some((t, j)) => {
            if t == 1 {
                Some((AuthorizationType::Trust, j))
            } else if t == 2 {
                Some((AuthorizationType::Challenge, j))
            } else {
                None
            }
        },
        None => None,
    }
}

pub proof fn lemma_parse_auth(buf: Seq<u8>, i: int, a: AuthorizationType)
    requires
        0 <= i,
        i + 1 <= buf.len(),
        buf.subrange(i, i + 1) == seq![auth_tag(a)],
    ensures
        parse_auth(buf, i) == Some((a, i + 1)),
{
    lemma_parse_tag(buf, i, auth_tag(a));
}

pub open spec fn pers_tag(p: PersistenceType) -> u8 {
    match p {
        PersistenceType::Any => 1u8,
        PersistenceType::Memory => 2u8,
    }
}

pub open spec fn parse_pers(buf: Seq<u8>, i: int) -> Option<(PersistenceType, int)> {
    match parse_tag(buf, i) {
        Some((t, j)) => {
            if t == 1 {
                Some((PersistenceType::Any, j))
            } else if t == 2 {
                Some((PersistenceType::Memory, j))
            } else {
                None
            }
        },
        None => None,
    }
}

pub proof fn lemma_parse_pers(buf: Seq<u8>, i: int, p: PersistenceType)
    requires
        0 <= i,
        i + 1 <= buf.len(),
        buf.subrange(i, i + 1) == seq![pers_tag(p)],
    ensures
        parse_pers(buf, i) == Some((p, i + 1)),
{
    lemma_parse_tag(buf, i, pers_tag(p));
}

pub open spec fn route_tag(r: RouteType) -> u8 {
    match r {
        RouteType::Any => 1u8,
        RouteType::Direct => 2u8,
    }
}

pub open spec fn parse_route(buf: Seq<u8>, i: int) -> Option<(RouteType, int)> {
    match parse_tag(buf, i) {
        Some((t, j)) => {
            if t == 1 {
                Some((RouteType::Any, j))
            } else if t == 2 {
                Some((RouteType::Direct, j))
            } else {
                None
            }
        },
        None => None,
    }
}

pub proof fn lemma_parse_route(buf: Seq<u8>, i: int, r: RouteType)
    requires
        0 <= i,
        i + 1 <= buf.len(),
        buf.subrange(i, i + 1) == seq![route_tag(r)],
    ensures
        parse_route(buf, i) == Some((r, i + 1)),
{
    lemma_parse_tag(buf, i, route_tag(r));
}

pub open spec fn dur_tag(d: DurabilityType) -> u8 {
    match d {
        DurabilityType::NoDurability => 1u8,
        DurabilityType::Durable => 2u8,
    }
}

pub open spec fn parse_dur(buf: Seq<u8>, i: int) -> Option<(DurabilityType, int)> {
    match parse_tag(buf, i) {
        Some((t, j)) => {
            if t == 1 {
                Some((DurabilityType::NoDurability, j))
            } else if t == 2 {
                Some((DurabilityType::Durable, j))
            } else {
                None
            }
        },
        None => None,
    }
}

pub proof fn lemma_parse_dur(buf: Seq<u8>, i: int, d: DurabilityType)
    requires
        0 <= i,
        i + 1 <= buf.len(),
        buf.subrange(i, i + 1) == seq![dur_tag(d)],
    ensures
        parse_dur(buf, i) == Some((d, i + 1)),
{
    lemma_parse_tag(buf, i, dur_tag(d));
}

pub open spec fn vote_tag(v: Vote) -> u8 {
    match v {
        Vote::Accept => 1u8,
        Vote::Reject => 2u8,
    }
}

pub open spec fn parse_vote(buf: Seq<u8>, i: int) -> Option<(Vote, int)> {
    match parse_tag(buf, i) {
        Some((t, j)) => {
            if t == 1 {
                Some((Vote::Accept, j))
            } else if t == 2 {
                Some((Vote::Reject, j))
            } else {
                None
            }
        },
        None => None,
    }
}

pub proof fn lemma_parse_vote(buf: Seq<u8>, i: int, v: Vote)
    requires
        0 <= i,
        i + 1 <= buf.len(),
        buf.subrange(i, i + 1) == seq![vote_tag(v)],
    ensures
        parse_vote(buf, i) == Some((v, i + 1)),
{
    lemma_parse_tag(buf, i, vote_tag(v));
}

} // verus!

verus! {

// ---------------------------------------------------------------------------
// Composite encodings: nodes, services, and the four list forms
// ---------------------------------------------------------------------------

pub open spec fn enc_node(n: SplinterNodeView) -> Seq<u8> {
    enc_str(n.node_id) + enc_str(n.endpoint)
}

pub open spec fn node_fits(n: SplinterNodeView) -> bool {
    str_fits(n.node_id) && str_fits(n.endpoint)
}

pub open spec fn parse_node(buf: Seq<u8>, i: int) -> Option<(SplinterNodeView, int)> {
    match parse_str(buf, i) {
        Some((node_id, j)) => match parse_str(buf, j) {
            Some((endpoint, k)) => Some((SplinterNodeView { node_id, endpoint }, k)),
            None => None,
        },
        None => None,
    }
}

pub proof fn lemma_parse_node(buf: Seq<u8>, i: int, n: SplinterNodeView)
    requires
        0 <= i,
        node_fits(n),
        i + enc_node(n).len() <= buf.len(),
        buf.subrange(i, i + enc_node(n).len()) == enc_node(n),
    ensures
        parse_node(buf, i) == Some((n, i + enc_node(n).len())),
{
    lemma_split_embed(buf, i, enc_str(n.node_id), enc_str(n.endpoint));
    lemma_parse_str(buf, i, n.node_id);
    lemma_parse_str(buf, i + enc_str(n.node_id).len(), n.endpoint);
}

pub open spec fn enc_str_items(l: Seq<Seq<char>>) -> Seq<u8>
    decreases l.len(),
{
    if l.len() == 0 {
        Seq::empty()
    } else {
        enc_str(l[0]) + enc_str_items(l.drop_first())
    }
}

pub open spec fn enc_str_list(l: Seq<Seq<char>>) -> Seq<u8> {
    enc_u64(l.len() as u64) + enc_str_items(l)
}

pub open spec fn str_list_fits(l: Seq<Seq<char>>) -> bool {
    l.len() <= u64::MAX && forall|k: int| 0 <= k < l.len() ==> str_fits(#[trigger] l[k])
}

pub open spec fn parse_str_items(buf: Seq<u8>, i: int, n: nat) -> Option<(Seq<Seq<char>>, int)>
    decreases n,
{
    if n == 0 {
        Some((Seq::empty(), i))
    } else {
        match parse_str(buf, i) {
            Some((v, j)) => match parse_str_items(buf, j, (n - 1) as nat) {
                Some((l, k)) => Some((seq![v] + l, k)),
                None => None,
            },
            None => None,
        }
    }
}

pub open spec fn parse_str_list(buf: Seq<u8>, i: int) -> Option<(Seq<Seq<char>>, int)> {
    match parse_u64(buf, i) {
        Some((n, j)) => parse_str_items(buf, j, n as nat),
        None => None,
    }
}

pub proof fn lemma_parse_str_items(buf: Seq<u8>, i: int, l: Seq<Seq<char>>)
    requires
        0 <= i,
        forall|k: int| 0 <= k < l.len() ==> str_fits(#[trigger] l[k]),
        i + enc_str_items(l).len() <= buf.len(),
        buf.subrange(i, i + enc_str_items(l).len()) == enc_str_items(l),
    ensures
        parse_str_items(buf, i, l.len()) == Some((l, i + enc_str_items(l).len())),
    decreases l.len(),
{
    if l.len() == 0 {
        assert(Seq::<Seq<char>>::empty() =~= l);
    } else {
        let rest = l.drop_first();
        lemma_split_embed(buf, i, enc_str(l[0]), enc_str_items(rest));
        lemma_parse_str(buf, i, l[0]);
        let j = i + enc_str(l[0]).len();
        assert(forall|k: int| 0 <= k < rest.len() ==> str_fits(#[trigger] rest[k]));
        lemma_parse_str_items(buf, j, rest);
        assert(seq![l[0]] + rest =~= l);
    }
}

pub proof fn lemma_parse_str_list(buf: Seq<u8>, i: int, l: Seq<Seq<char>>)
    requires
        0 <= i,
        str_list_fits(l),
        i + enc_str_list(l).len() <= buf.len(),
        buf.subrange(i, i + enc_str_list(l).len()) == enc_str_list(l),
    ensures
        parse_str_list(buf, i) == Some((l, i + enc_str_list(l).len())),
{
    lemma_auto_spec_u64_to_from_le_bytes();
    lemma_split_embed(buf, i, enc_u64(l.len() as u64), enc_str_items(l));
    lemma_parse_u64(buf, i, l.len() as u64);
    lemma_parse_str_items(buf, i + 8, l);
}

pub proof fn lemma_str_items_push(l: Seq<Seq<char>>, v: Seq<char>)
    ensures
        enc_str_items(l.push(v)) == enc_str_items(l) + enc_str(v),
    decreases l.len(),
{
    if l.len() == 0 {
        assert(l.push(v)[0] == v);
        assert(l.push(v).drop_first() =~= Seq::<Seq<char>>::empty());
        assert(enc_str_items(Seq::<Seq<char>>::empty()) == Seq::<u8>::empty());
        assert(enc_str_items(l.push(v)) == enc_str(v) + Seq::<u8>::empty());
        assert(enc_str_items(l) == Seq::<u8>::empty());
        assert(enc_str(v) + Seq::<u8>::empty() =~= enc_str(v));
        assert(Seq::<u8>::empty() + enc_str(v) =~= enc_str(v));
    } else {
        assert(l.push(v)[0] == l[0]);
        assert(l.push(v).drop_first() =~= l.drop_first().push(v));
        assert(enc_str_items(l.push(v)) == enc_str(l[0]) + enc_str_items(l.drop_first().push(v)));
        lemma_str_items_push(l.drop_first(), v);
        assert(enc_str(l[0]) + (enc_str_items(l.drop_first()) + enc_str(v)) =~= (enc_str(l[0]) + enc_str_items(l.drop_first())) + enc_str(v));
        assert(enc_str_items(l) == enc_str(l[0]) + enc_str_items(l.drop_first()));
    }
}

pub open spec fn enc_bytes_items(l: Seq<Seq<u8>>) -> Seq<u8>
    decreases l.len(),
{
    if l.len() == 0 {
        Seq::empty()
    } else {
        enc_bytes(l[0]) + enc_bytes_items(l.drop_first())
    }
}

pub open spec fn enc_bytes_list(l: Seq<Seq<u8>>) -> Seq<u8> {
    enc_u64(l.len() as u64) + enc_bytes_items(l)
}

pub open spec fn bytes_list_fits(l: Seq<Seq<u8>>) -> bool {
    l.len() <= u64::MAX && forall|k: int| 0 <= k < l.len() ==> bytes_fits(#[trigger] l[k])
}

pub open spec fn parse_bytes_items(buf: Seq<u8>, i: int, n: nat) -> Option<(Seq<Seq<u8>>, int)>
    decreases n,
{
    if n == 0 {
        Some((Seq::empty(), i))
    } else {
        match parse_bytes(buf, i) {
            Some((v, j)) => match parse_bytes_items(buf, j, (n - 1) as nat) {
                Some((l, k)) => Some((seq![v] + l, k)),
                None => None,
            },
            None => None,
        }
    }
}

pub open spec fn parse_bytes_list(buf: Seq<u8>, i: int) -> Option<(Seq<Seq<u8>>, int)> {
    match parse_u64(buf, i) {
        Some((n, j)) => parse_bytes_items(buf, j, n as nat),
        None => None,
    }
}

pub proof fn lemma_parse_bytes_items(buf: Seq<u8>, i: int, l: Seq<Seq<u8>>)
    requires
        0 <= i,
        forall|k: int| 0 <= k < l.len() ==> bytes_fits(#[trigger] l[k]),
        i + enc_bytes_items(l).len() <= buf.len(),
        buf.subrange(i, i + enc_bytes_items(l).len()) == enc_bytes_items(l),
    ensures
        parse_bytes_items(buf, i, l.len()) == Some((l, i + enc_bytes_items(l).len())),
    decreases l.len(),
{
    if l.len() == 0 {
        assert(Seq::<Seq<u8>>::empty() =~= l);
    } else {
        let rest = l.drop_first();
        lemma_split_embed(buf, i, enc_bytes(l[0]), enc_bytes_items(rest));
        lemma_parse_bytes(buf, i, l[0]);
        let j = i + enc_bytes(l[0]).len();
        assert(forall|k: int| 0 <= k < rest.len() ==> bytes_fits(#[trigger] rest[k]));
        lemma_parse_bytes_items(buf, j, rest);
        assert(seq![l[0]] + rest =~= l);
    }
}

pub proof fn lemma_parse_bytes_list(buf: Seq<u8>, i: int, l: Seq<Seq<u8>>)
    requires
        0 <= i,
        bytes_list_fits(l),
        i + enc_bytes_list(l).len() <= buf.len(),
        buf.subrange(i, i + enc_bytes_list(l).len()) == enc_bytes_list(l),
    ensures
        parse_bytes_list(buf, i) == Some((l, i + enc_bytes_list(l).len())),
{
    lemma_auto_spec_u64_to_from_le_bytes();
    lemma_split_embed(buf, i, enc_u64(l.len() as u64), enc_bytes_items(l));
    lemma_parse_u64(buf, i, l.len() as u64);
    lemma_parse_bytes_items(buf, i + 8, l);
}

pub proof fn lemma_bytes_items_push(l: Seq<Seq<u8>>, v: Seq<u8>)
    ensures
        enc_bytes_items(l.push(v)) == enc_bytes_items(l) + enc_bytes(v),
    decreases l.len(),
{
    if l.len() == 0 {
        assert(l.push(v)[0] == v);
        assert(l.push(v).drop_first() =~= Seq::<Seq<u8>>::empty());
        assert(enc_bytes_items(Seq::<Seq<u8>>::empty()) == Seq::<u8>::empty());
        assert(enc_bytes_items(l.push(v)) == enc_bytes(v) + Seq::<u8>::empty());
        assert(enc_bytes_items(l) == Seq::<u8>::empty());
        assert(enc_bytes(v) + Seq::<u8>::empty() =~= enc_bytes(v));
        assert(Seq::<u8>::empty() + enc_bytes(v) =~= enc_bytes(v));
    } else {
        assert(l.push(v)[0] == l[0]);
        assert(l.push(v).drop_first() =~= l.drop_first().push(v));
        assert(enc_bytes_items(l.push(v)) == enc_bytes(l[0]) + enc_bytes_items(l.drop_first().push(v)));
        lemma_bytes_items_push(l.drop_first(), v);
        assert(enc_bytes(l[0]) + (enc_bytes_items(l.drop_first()) + enc_bytes(v)) =~= (enc_bytes(l[0]) + enc_bytes_items(l.drop_first())) + enc_bytes(v));
        assert(enc_bytes_items(l) == enc_bytes(l[0]) + enc_bytes_items(l.drop_first()));
    }
}

pub open spec fn enc_service(s: SplinterServiceView) -> Seq<u8> {
    enc_str(s.service_id) + (enc_str(s.service_type) + enc_str_list(s.allowed_nodes))
}

pub open spec fn service_fits(s: SplinterServiceView) -> bool {
    str_fits(s.service_id) && str_fits(s.service_type) && str_list_fits(s.allowed_nodes)
}

pub open spec fn parse_service(buf: Seq<u8>, i: int) -> Option<(SplinterServiceView, int)> {
    match parse_str(buf, i) {
        Some((service_id, j)) => match parse_str(buf, j) {
            Some((service_type, k)) => match parse_str_list(buf, k) {
                Some((allowed_nodes, m)) => Some(
                    (SplinterServiceView { service_id, service_type, allowed_nodes }, m),
                ),
                None => None,
            },
            None => None,
        },
        None => None,
    }
}

pub proof fn lemma_parse_service(buf: Seq<u8>, i: int, s: SplinterServiceView)
    requires
        0 <= i,
        service_fits(s),
        i + enc_service(s).len() <= buf.len(),
        buf.subrange(i, i + enc_service(s).len()) == enc_service(s),
    ensures
        parse_service(buf, i) == Some((s, i + enc_service(s).len())),
{
    let e1 = enc_str(s.service_id);
    let e2 = enc_str(s.service_type);
    let e3 = enc_str_list(s.allowed_nodes);
    lemma_split_embed(buf, i, e1, e2 + e3);
    lemma_parse_str(buf, i, s.service_id);
    lemma_split_embed(buf, i + e1.len(), e2, e3);
    lemma_parse_str(buf, i + e1.len(), s.service_type);
    lemma_parse_str_list(buf, i + e1.len() + e2.len(), s.allowed_nodes);
}

pub open spec fn enc_node_items(l: Seq<SplinterNodeView>) -> Seq<u8>
    decreases l.len(),
{
    if l.len() == 0 {
        Seq::empty()
    } else {
        enc_node(l[0]) + enc_node_items(l.drop_first())
    }
}

pub open spec fn enc_node_list(l: Seq<SplinterNodeView>) -> Seq<u8> {
    enc_u64(l.len() as u64) + enc_node_items(l)
}

pub open spec fn node_list_fits(l: Seq<SplinterNodeView>) -> bool {
    l.len() <= u64::MAX && forall|k: int| 0 <= k < l.len() ==> node_fits(#[trigger] l[k])
}

pub open spec fn parse_node_items(buf: Seq<u8>, i: int, n: nat) -> Option<
    (Seq<SplinterNodeView>, int),
>
    decreases n,
{
    if n == 0 {
        Some((Seq::empty(), i))
    } else {
        match parse_node(buf, i) {
            Some((v, j)) => match parse_node_items(buf, j, (n - 1) as nat) {
                Some((l, k)) => Some((seq![v] + l, k)),
                None => None,
            },
            None => None,
        }
    }
}

pub open spec fn parse_node_list(buf: Seq<u8>, i: int) -> Option<(Seq<SplinterNodeView>, int)> {
    match parse_u64(buf, i) {
        Some((n, j)) => parse_node_items(buf, j, n as nat),
        None => None,
    }
}

pub proof fn lemma_parse_node_items(buf: Seq<u8>, i: int, l: Seq<SplinterNodeView>)
    requires
        0 <= i,
        forall|k: int| 0 <= k < l.len() ==> node_fits(#[trigger] l[k]),
        i + enc_node_items(l).len() <= buf.len(),
        buf.subrange(i, i + enc_node_items(l).len()) == enc_node_items(l),
    ensures
        parse_node_items(buf, i, l.len()) == Some((l, i + enc_node_items(l).len())),
    decreases l.len(),
{
    if l.len() == 0 {
        assert(Seq::<SplinterNodeView>::empty() =~= l);
    } else {
        let rest = l.drop_first();
        lemma_split_embed(buf, i, enc_node(l[0]), enc_node_items(rest));
        lemma_parse_node(buf, i, l[0]);
        let j = i + enc_node(l[0]).len();
        assert(forall|k: int| 0 <= k < rest.len() ==> node_fits(#[trigger] rest[k]));
        lemma_parse_node_items(buf, j, rest);
        assert(seq![l[0]] + rest =~= l);
    }
}

pub proof fn lemma_parse_node_list(buf: Seq<u8>, i: int, l: Seq<SplinterNodeView>)
    requires
        0 <= i,
        node_list_fits(l),
        i + enc_node_list(l).len() <= buf.len(),
        buf.subrange(i, i + enc_node_list(l).len()) == enc_node_list(l),
    ensures
        parse_node_list(buf, i) == Some((l, i + enc_node_list(l).len())),
{
    lemma_auto_spec_u64_to_from_le_bytes();
    lemma_split_embed(buf, i, enc_u64(l.len() as u64), enc_node_items(l));
    lemma_parse_u64(buf, i, l.len() as u64);
    lemma_parse_node_items(buf, i + 8, l);
}

pub proof fn lemma_node_items_push(l: Seq<SplinterNodeView>, v: SplinterNodeView)
    ensures
        enc_node_items(l.push(v)) == enc_node_items(l) + enc_node(v),
    decreases l.len(),
{
    if l.len() == 0 {
        assert(l.push(v)[0] == v);
        assert(l.push(v).drop_first() =~= Seq::<SplinterNodeView>::empty());
        assert(enc_node_items(Seq::<SplinterNodeView>::empty()) == Seq::<u8>::empty());
        assert(enc_node_items(l.push(v)) == enc_node(v) + Seq::<u8>::empty());
        assert(enc_node_items(l) == Seq::<u8>::empty());
        assert(enc_node(v) + Seq::<u8>::empty() =~= enc_node(v));
        assert(Seq::<u8>::empty() + enc_node(v) =~= enc_node(v));
    } else {
        assert(l.push(v)[0] == l[0]);
        assert(l.push(v).drop_first() =~= l.drop_first().push(v));
        assert(enc_node_items(l.push(v)) == enc_node(l[0]) + enc_node_items(l.drop_first().push(v)));
        lemma_node_items_push(l.drop_first(), v);
        assert(enc_node(l[0]) + (enc_node_items(l.drop_first()) + enc_node(v)) =~= (enc_node(l[0]) + enc_node_items(l.drop_first())) + enc_node(v));
        assert(enc_node_items(l) == enc_node(l[0]) + enc_node_items(l.drop_first()));
    }
}

pub open spec fn enc_service_items(l: Seq<SplinterServiceView>) -> Seq<u8>
    decreases l.len(),
{
    if l.len() == 0 {
        Seq::empty()
    } else {
        enc_service(l[0]) + enc_service_items(l.drop_first())
    }
}

pub open spec fn enc_service_list(l: Seq<SplinterServiceView>) -> Seq<u8> {
    enc_u64(l.len() as u64) + enc_service_items(l)
}

pub open spec fn service_list_fits(l: Seq<SplinterServiceView>) -> bool {
    l.len() <= u64::MAX && forall|k: int| 0 <= k < l.len() ==> service_fits(#[trigger] l[k])
}

pub open spec fn parse_service_items(buf: Seq<u8>, i: int, n: nat) -> Option<
    (Seq<SplinterServiceView>, int),
>
    decreases n,
{
    if n == 0 {
        Some((Seq::empty(), i))
    } else {
        match parse_service(buf, i) {
            Some((v, j)) => match parse_service_items(buf, j, (n - 1) as nat) {
                Some((l, k)) => Some((seq![v] + l, k)),
                None => None,
            },
            None => None,
        }
    }
}

pub open spec fn parse_service_list(buf: Seq<u8>, i: int) -> Option<
    (Seq<SplinterServiceView>, int),
> {
    match parse_u64(buf, i) {
        Some((n, j)) => parse_service_items(buf, j, n as nat),
        None => None,
    }
}

pub proof fn lemma_parse_service_items(buf: Seq<u8>, i: int, l: Seq<SplinterServiceView>)
    requires
        0 <= i,
        forall|k: int| 0 <= k < l.len() ==> service_fits(#[trigger] l[k]),
        i + enc_service_items(l).len() <= buf.len(),
        buf.subrange(i, i + enc_service_items(l).len()) == enc_service_items(l),
    ensures
        parse_service_items(buf, i, l.len()) == Some((l, i + enc_service_items(l).len())),
    decreases l.len(),
{
    if l.len() == 0 {
        assert(Seq::<SplinterServiceView>::empty() =~= l);
    } else {
        let rest = l.drop_first();
        lemma_split_embed(buf, i, enc_service(l[0]), enc_service_items(rest));
        lemma_parse_service(buf, i, l[0]);
        let j = i + enc_service(l[0]).len();
        assert(forall|k: int| 0 <= k < rest.len() ==> service_fits(#[trigger] rest[k]));
        lemma_parse_service_items(buf, j, rest);
        assert(seq![l[0]] + rest =~= l);
    }
}

pub proof fn lemma_parse_service_list(buf: Seq<u8>, i: int, l: Seq<SplinterServiceView>)
    requires
        0 <= i,
        service_list_fits(l),
        i + enc_service_list(l).len() <= buf.len(),
        buf.subrange(i, i + enc_service_list(l).len()) == enc_service_list(l),
    ensures
        parse_service_list(buf, i) == Some((l, i + enc_service_list(l).len())),
{
    lemma_auto_spec_u64_to_from_le_bytes();
    lemma_split_embed(buf, i, enc_u64(l.len() as u64), enc_service_items(l));
    lemma_parse_u64(buf, i, l.len() as u64);
    lemma_parse_service_items(buf, i + 8, l);
}

pub proof fn lemma_service_items_push(l: Seq<SplinterServiceView>, v: SplinterServiceView)
    ensures
        enc_service_items(l.push(v)) == enc_service_items(l) + enc_service(v),
    decreases l.len(),
{
    if l.len() == 0 {
        assert(l.push(v)[0] == v);
        assert(l.push(v).drop_first() =~= Seq::<SplinterServiceView>::empty());
        assert(enc_service_items(Seq::<SplinterServiceView>::empty()) == Seq::<u8>::empty());
        assert(enc_service_items(l.push(v)) == enc_service(v) + Seq::<u8>::empty());
        assert(enc_service_items(l) == Seq::<u8>::empty());
        assert(enc_service(v) + Seq::<u8>::empty() =~= enc_service(v));
        assert(Seq::<u8>::empty() + enc_service(v) =~= enc_service(v));
    } else {
        assert(l.push(v)[0] == l[0]);
        assert(l.push(v).drop_first() =~= l.drop_first().push(v));
        assert(enc_service_items(l.push(v)) == enc_service(l[0]) + enc_service_items(l.drop_first().push(v)));
        lemma_service_items_push(l.drop_first(), v);
        assert(enc_service(l[0]) + (enc_service_items(l.drop_first()) + enc_service(v)) =~= (enc_service(l[0]) + enc_service_items(l.drop_first())) + enc_service(v));
        assert(enc_service_items(l) == enc_service(l[0]) + enc_service_items(l.drop_first()));
    }
}

} // verus!

verus! {

// ---------------------------------------------------------------------------
// Circuits, management payloads, and the admin envelope
// ---------------------------------------------------------------------------

pub open spec fn enc_circuit(c: CircuitView) -> Seq<u8> {
    enc_str(c.circuit_id) + (seq![auth_tag(c.authorization_type)] + (seq![pers_tag(c.persistence)]
        + (seq![route_tag(c.routes)] + (seq![dur_tag(c.durability)] + (enc_str(
        c.circuit_management_type,
    ) + (enc_node_list(c.members) + enc_service_list(c.roster)))))))
}

pub open spec fn circuit_fits(c: CircuitView) -> bool {
    &&& str_fits(c.circuit_id)
    &&& str_fits(c.circuit_management_type)
    &&& node_list_fits(c.members)
    &&& service_list_fits(c.roster)
}

pub open spec fn parse_circuit(buf: Seq<u8>, i: int) -> Option<(CircuitView, int)> {
    match parse_str(buf, i) {
        Some((circuit_id, i1)) => match parse_auth(buf, i1) {
            Some((authorization_type, i2)) => match parse_pers(buf, i2) {
                Some((persistence, i3)) => match parse_route(buf, i3) {
                    Some((routes, i4)) => match parse_dur(buf, i4) {
                        Some((durability, i5)) => match parse_str(buf, i5) {
                            Some((circuit_management_type, i6)) => match parse_node_list(
                                buf,
                                i6,
                            ) {
                                Some((members, i7)) => match parse_service_list(buf, i7) {
                                    Some((roster, i8)) => Some(
                                        (
                                            CircuitView {
                                                circuit_id,
                                                authorization_type,
                                                persistence,
                                                routes,
                                                durability,
                                                circuit_management_type,
                                                members,
                                                roster,
                                            },
                                            i8,
                                        ),
                                    ),
                                    None => None,
                                },
                                None => None,
                            },
                            None => None,
                        },
                        None => None,
                    },
                    None => None,
                },
                None => None,
            },
            None => None,
        },
        None => None,
    }
}

pub proof fn lemma_parse_circuit(buf: Seq<u8>, i: int, c: CircuitView)
    requires
        0 <= i,
        circuit_fits(c),
        i + enc_circuit(c).len() <= buf.len(),
        buf.subrange(i, i + enc_circuit(c).len()) == enc_circuit(c),
    ensures
        parse_circuit(buf, i) == Some((c, i + enc_circuit(c).len())),
{
    let e1 = enc_str(c.circuit_id);
    let e2: Seq<u8> = seq![auth_tag(c.authorization_type)];
    let e3: Seq<u8> = seq![pers_tag(c.persistence)];
    let e4: Seq<u8> = seq![route_tag(c.routes)];
    let e5: Seq<u8> = seq![dur_tag(c.durability)];
    let e6 = enc_str(c.circuit_management_type);
    let e7 = enc_node_list(c.members);
    let e8 = enc_service_list(c.roster);
    let i1 = i + e1.len();
    let i2 = i1 + 1;
    let i3 = i2 + 1;
    let i4 = i3 + 1;
    let i5 = i4 + 1;
    let i6 = i5 + e6.len();
    let i7 = i6 + e7.len();
    lemma_split_embed(buf, i, e1, e2 + (e3 + (e4 + (e5 + (e6 + (e7 + e8))))));
    lemma_parse_str(buf, i, c.circuit_id);
    lemma_split_embed(buf, i1, e2, e3 + (e4 + (e5 + (e6 + (e7 + e8)))));
    lemma_parse_auth(buf, i1, c.authorization_type);
    lemma_split_embed(buf, i2, e3, e4 + (e5 + (e6 + (e7 + e8))));
    lemma_parse_pers(buf, i2, c.persistence);
    lemma_split_embed(buf, i3, e4, e5 + (e6 + (e7 + e8)));
    lemma_parse_route(buf, i3, c.routes);
    lemma_split_embed(buf, i4, e5, e6 + (e7 + e8));
    lemma_parse_dur(buf, i4, c.durability);
    lemma_split_embed(buf, i5, e6, e7 + e8);
    lemma_parse_str(buf, i5, c.circuit_management_type);
    lemma_split_embed(buf, i6, e7, e8);
    lemma_parse_node_list(buf, i6, c.members);
    lemma_parse_service_list(buf, i7, c.roster);
}

pub open spec fn enc_payload(p: CircuitManagementPayloadView) -> Seq<u8> {
    match p {
        CircuitManagementPayloadView::CircuitCreateRequest(c) => seq![1u8] + enc_circuit(c),
        CircuitManagementPayloadView::CircuitProposalVote(v) => seq![2u8] + (enc_bytes(
            v.proposal_id,
        ) + seq![vote_tag(v.vote)]),
    }
}

pub open spec fn payload_fits(p: CircuitManagementPayloadView) -> bool {
    match p {
        CircuitManagementPayloadView::CircuitCreateRequest(c) => circuit_fits(c),
        CircuitManagementPayloadView::CircuitProposalVote(v) => bytes_fits(v.proposal_id),
    }
}

pub open spec fn parse_payload(buf: Seq<u8>, i: int) -> Option<
    (CircuitManagementPayloadView, int),
> {
    match parse_tag(buf, i) {
        Some((t, j)) => {
            if t == 1 {
                match parse_circuit(buf, j) {
                    Some((c, k)) => Some(
                        (CircuitManagementPayloadView::CircuitCreateRequest(c), k),
                    ),
                    None => None,
                }
            } else if t == 2 {
                match parse_bytes(buf, j) {
                    Some((proposal_id, k)) => match parse_vote(buf, k) {
                        Some((vote, m)) => Some(
                            (
                                CircuitManagementPayloadView::CircuitProposalVote(
                                    CircuitProposalVoteView { proposal_id, vote },
                                ),
                                m,
                            ),
                        ),
                        None => None,
                    },
                    None => None,
                }
            } else {
                None
            }
        },
        None => None,
    }
}

pub proof fn lemma_parse_payload(buf: Seq<u8>, i: int, p: CircuitManagementPayloadView)
    requires
        0 <= i,
        payload_fits(p),
        i + enc_payload(p).len() <= buf.len(),
        buf.subrange(i, i + enc_payload(p).len()) == enc_payload(p),
    ensures
        parse_payload(buf, i) == Some((p, i + enc_payload(p).len())),
{
    match p {
        CircuitManagementPayloadView::CircuitCreateRequest(c) => {
            lemma_split_embed(buf, i, seq![1u8], enc_circuit(c));
            lemma_parse_tag(buf, i, 1u8);
            lemma_parse_circuit(buf, i + 1, c);
        },
        CircuitManagementPayloadView::CircuitProposalVote(v) => {
            lemma_split_embed(buf, i, seq![2u8], enc_bytes(v.proposal_id) + seq![vote_tag(v.vote)]);
            lemma_parse_tag(buf, i, 2u8);
            lemma_split_embed(buf, i + 1, enc_bytes(v.proposal_id), seq![vote_tag(v.vote)]);
            lemma_parse_bytes(buf, i + 1, v.proposal_id);
            lemma_parse_vote(buf, i + 1 + enc_bytes(v.proposal_id).len(), v.vote);
        },
    }
}

pub open spec fn enc_admin(m: AdminMessageView) -> Seq<u8> {
    match m {
        AdminMessageView::ConsensusMessage(b) => seq![1u8] + enc_bytes(b),
        AdminMessageView::ProposedCircuit { expected_hash, circuit_payload, required_verifiers } => {
            seq![2u8] + (enc_bytes(expected_hash) + (enc_bytes(circuit_payload) + enc_bytes_list(
                required_verifiers,
            )))
        },
    }
}

pub open spec fn admin_fits(m: AdminMessageView) -> bool {
    match m {
        AdminMessageView::ConsensusMessage(b) => bytes_fits(b),
        AdminMessageView::ProposedCircuit { expected_hash, circuit_payload, required_verifiers } => {
            bytes_fits(expected_hash) && bytes_fits(circuit_payload) && bytes_list_fits(
                required_verifiers,
            )
        },
    }
}

pub open spec fn parse_admin(buf: Seq<u8>, i: int) -> Option<(AdminMessageView, int)> {
    match parse_tag(buf, i) {
        Some((t, j)) => {
            if t == 1 {
                match parse_bytes(buf, j) {
                    Some((b, k)) => Some((AdminMessageView::ConsensusMessage(b), k)),
                    None => None,
                }
            } else if t == 2 {
                match parse_bytes(buf, j) {
                    Some((expected_hash, k)) => match parse_bytes(buf, k) {
                        Some((circuit_payload, m)) => match parse_bytes_list(buf, m) {
                            Some((required_verifiers, n)) => Some(
                                (
                                    AdminMessageView::ProposedCircuit {
                                        expected_hash,
                                        circuit_payload,
                                        required_verifiers,
                                    },
                                    n,
                                ),
                            ),
                            None => None,
                        },
                        None => None,
                    },
                    None => None,
                }
            } else {
                None
            }
        },
        None => None,
    }
}

pub proof fn lemma_parse_admin(buf: Seq<u8>, i: int, m: AdminMessageView)
    requires
        0 <= i,
        admin_fits(m),
        i + enc_admin(m).len() <= buf.len(),
        buf.subrange(i, i + enc_admin(m).len()) == enc_admin(m),
    ensures
        parse_admin(buf, i) == Some((m, i + enc_admin(m).len())),
{
    match m {
        AdminMessageView::ConsensusMessage(b) => {
            lemma_split_embed(buf, i, seq![1u8], enc_bytes(b));
            lemma_parse_tag(buf, i, 1u8);
            lemma_parse_bytes(buf, i + 1, b);
        },
        AdminMessageView::ProposedCircuit { expected_hash, circuit_payload, required_verifiers } => {
            let e1 = enc_bytes(expected_hash);
            let e2 = enc_bytes(circuit_payload);
            let e3 = enc_bytes_list(required_verifiers);
            lemma_split_embed(buf, i, seq![2u8], e1 + (e2 + e3));
            lemma_parse_tag(buf, i, 2u8);
            lemma_split_embed(buf, i + 1, e1, e2 + e3);
            lemma_parse_bytes(buf, i + 1, expected_hash);
            lemma_split_embed(buf, i + 1 + e1.len(), e2, e3);
            lemma_parse_bytes(buf, i + 1 + e1.len(), circuit_payload);
            lemma_parse_bytes_list(buf, i + 1 + e1.len() + e2.len(), required_verifiers);
        },
    }
}

// ---------------------------------------------------------------------------
// The round-trip laws: encoding then decoding is the identity
// ---------------------------------------------------------------------------

/// Encode-then-decode of any admin envelope is the identity: parsing the
/// canonical encoding of a message yields the message back, consuming the
/// whole buffer.
pub proof fn lemma_admin_round_trip(m: AdminMessageView)
    requires
        admin_fits(m),
    ensures
        parse_admin(enc_admin(m), 0) == Some((m, enc_admin(m).len() as int)),
{
    let buf = enc_admin(m);
    assert(buf.subrange(0, buf.len() as int) =~= buf);
    lemma_parse_admin(buf, 0, m);
}

/// Encode-then-decode of any circuit management payload is the identity.
pub proof fn lemma_payload_round_trip(p: CircuitManagementPayloadView)
    requires
        payload_fits(p),
    ensures
        parse_payload(enc_payload(p), 0) == Some((p, enc_payload(p).len() as int)),
{
    let buf = enc_payload(p);
    assert(buf.subrange(0, buf.len() as int) =~= buf);
    lemma_parse_payload(buf, 0, p);
}

} // verus!

verus! {

// ---------------------------------------------------------------------------
// Executable encoders for the composites
// ---------------------------------------------------------------------------

pub fn emit_auth(out: &mut Vec<u8>, a: AuthorizationType)
    ensures
        final(out)@ == old(out)@ + seq![auth_tag(a)],
{
    let t: u8 = match a {
        AuthorizationType::Trust => 1u8,
        AuthorizationType::Challenge => 2u8,
    };
    emit_tag(out, t);
}

pub fn emit_pers(out: &mut Vec<u8>, p: PersistenceType)
    ensures
        final(out)@ == old(out)@ + seq![pers_tag(p)],
{
    let t: u8 = match p {
        PersistenceType::Any => 1u8,
        PersistenceType::Memory => 2u8,
    };
    emit_tag(out, t);
}

pub fn emit_route(out: &mut Vec<u8>, r: RouteType)
    ensures
        final(out)@ == old(out)@ + seq![route_tag(r)],
{
    let t: u8 = match r {
        RouteType::Any => 1u8,
        RouteType::Direct => 2u8,
    };
    emit_tag(out, t);
}

pub fn emit_dur(out: &mut Vec<u8>, d: DurabilityType)
    ensures
        final(out)@ == old(out)@ + seq![dur_tag(d)],
{
    let t: u8 = match d {
        DurabilityType::NoDurability => 1u8,
        DurabilityType::Durable => 2u8,
    };
    emit_tag(out, t);
}

pub fn emit_vote(out: &mut Vec<u8>, v: Vote)
    ensures
        final(out)@ == old(out)@ + seq![vote_tag(v)],
{
    let t: u8 = match v {
        Vote::Accept => 1u8,
        Vote::Reject => 2u8,
    };
    emit_tag(out, t);
}

pub fn emit_node(out: &mut Vec<u8>, n: &SplinterNode)
    ensures
        final(out)@ == old(out)@ + enc_node(n@),
        node_fits(n@),
{
    emit_str(out, n.node_id.as_str());
    emit_str(out, n.endpoint.as_str());
    proof {
        assert(final(out)@ =~= old(out)@ + enc_node(n@));
    }
}

pub fn emit_str_list(out: &mut Vec<u8>, l: &Vec<String>)
    ensures
        final(out)@ == old(out)@ + enc_str_list(crate::messages::strings_view(l@)),
        str_list_fits(crate::messages::strings_view(l@)),
{
    let ghost lv = crate::messages::strings_view(l@);
    emit_u64(out, l.len() as u64);
    let mut i: usize = 0;
    while i < l.len()
        invariant
            i <= l@.len(),
            lv == crate::messages::strings_view(l@),
            lv.len() == l@.len(),
            out@ == old(out)@ + enc_u64(lv.len() as u64) + enc_str_items(lv.take(i as int)),
            forall|k: int| 0 <= k < i ==> str_fits(#[trigger] lv[k]),
        decreases l@.len() - i,
    {
        emit_str(out, l[i].as_str());
        proof {
            lemma_str_items_push(lv.take(i as int), lv[i as int]);
            assert(lv.take(i + 1) =~= lv.take(i as int).push(lv[i as int]));
            assert(old(out)@ + enc_u64(lv.len() as u64) + enc_str_items(lv.take(i as int))
                + enc_str(lv[i as int]) =~= old(out)@ + enc_u64(lv.len() as u64) + enc_str_items(
                lv.take(i + 1),
            ));
        }
        i = i + 1;
    }
    proof {
        assert(lv.take(lv.len() as int) =~= lv);
        assert(old(out)@ + enc_u64(lv.len() as u64) + enc_str_items(lv) =~= old(out)@
            + enc_str_list(lv));
    }
}

pub fn emit_service(out: &mut Vec<u8>, s: &SplinterService)
    ensures
        final(out)@ == old(out)@ + enc_service(s@),
        service_fits(s@),
{
    emit_str(out, s.service_id.as_str());
    emit_str(out, s.service_type.as_str());
    emit_str_list(out, &s.allowed_nodes);
    proof {
        assert(final(out)@ =~= old(out)@ + enc_service(s@));
    }
}

pub fn emit_node_list(out: &mut Vec<u8>, l: &Vec<SplinterNode>)
    ensures
        final(out)@ == old(out)@ + enc_node_list(crate::messages::nodes_view(l@)),
        node_list_fits(crate::messages::nodes_view(l@)),
{
    let ghost lv = crate::messages::nodes_view(l@);
    emit_u64(out, l.len() as u64);
    let mut i: usize = 0;
    while i < l.len()
        invariant
            i <= l@.len(),
            lv == crate::messages::nodes_view(l@),
            lv.len() == l@.len(),
            out@ == old(out)@ + enc_u64(lv.len() as u64) + enc_node_items(lv.take(i as int)),
            forall|k: int| 0 <= k < i ==> node_fits(#[trigger] lv[k]),
        decreases l@.len() - i,
    {
        emit_node(out, &l[i]);
        proof {
            lemma_node_items_push(lv.take(i as int), lv[i as int]);
            assert(lv.take(i + 1) =~= lv.take(i as int).push(lv[i as int]));
            assert(old(out)@ + enc_u64(lv.len() as u64) + enc_node_items(lv.take(i as int))
                + enc_node(lv[i as int]) =~= old(out)@ + enc_u64(lv.len() as u64) + enc_node_items(
                lv.take(i + 1),
            ));
        }
        i = i + 1;
    }
    proof {
        assert(lv.take(lv.len() as int) =~= lv);
        assert(old(out)@ + enc_u64(lv.len() as u64) + enc_node_items(lv) =~= old(out)@
            + enc_node_list(lv));
    }
}

pub fn emit_service_list(out: &mut Vec<u8>, l: &Vec<SplinterService>)
    ensures
        final(out)@ == old(out)@ + enc_service_list(crate::messages::services_view(l@)),
        service_list_fits(crate::messages::services_view(l@)),
{
    let ghost lv = crate::messages::services_view(l@);
    emit_u64(out, l.len() as u64);
    let mut i: usize = 0;
    while i < l.len()
        invariant
            i <= l@.len(),
            lv == crate::messages::services_view(l@),
            lv.len() == l@.len(),
            out@ == old(out)@ + enc_u64(lv.len() as u64) + enc_service_items(lv.take(i as int)),
            forall|k: int| 0 <= k < i ==> service_fits(#[trigger] lv[k]),
        decreases l@.len() - i,
    {
        emit_service(out, &l[i]);
        proof {
            lemma_service_items_push(lv.take(i as int), lv[i as int]);
            assert(lv.take(i + 1) =~= lv.take(i as int).push(lv[i as int]));
            assert(old(out)@ + enc_u64(lv.len() as u64) + enc_service_items(lv.take(i as int))
                + enc_service(lv[i as int]) =~= old(out)@ + enc_u64(lv.len() as u64)
                + enc_service_items(lv.take(i + 1)));
        }
        i = i + 1;
    }
    proof {
        assert(lv.take(lv.len() as int) =~= lv);
        assert(old(out)@ + enc_u64(lv.len() as u64) + enc_service_items(lv) =~= old(out)@
            + enc_service_list(lv));
    }
}

pub fn emit_bytes_list(out: &mut Vec<u8>, l: &Vec<Vec<u8>>)
    ensures
        final(out)@ == old(out)@ + enc_bytes_list(crate::messages::byte_vecs_view(l@)),
        bytes_list_fits(crate::messages::byte_vecs_view(l@)),
{
    let ghost lv = crate::messages::byte_vecs_view(l@);
    emit_u64(out, l.len() as u64);
    let mut i: usize = 0;
    while i < l.len()
        invariant
            i <= l@.len(),
            lv == crate::messages::byte_vecs_view(l@),
            lv.len() == l@.len(),
            out@ == old(out)@ + enc_u64(lv.len() as u64) + enc_bytes_items(lv.take(i as int)),
            forall|k: int| 0 <= k < i ==> bytes_fits(#[trigger] lv[k]),
        decreases l@.len() - i,
    {
        emit_bytes(out, l[i].as_slice());
        proof {
            lemma_bytes_items_push(lv.take(i as int), lv[i as int]);
            assert(lv.take(i + 1) =~= lv.take(i as int).push(lv[i as int]));
            assert(old(out)@ + enc_u64(lv.len() as u64) + enc_bytes_items(lv.take(i as int))
                + enc_bytes(lv[i as int]) =~= old(out)@ + enc_u64(lv.len() as u64)
                + enc_bytes_items(lv.take(i + 1)));
        }
        i = i + 1;
    }
    proof {
        assert(lv.take(lv.len() as int) =~= lv);
        assert(old(out)@ + enc_u64(lv.len() as u64) + enc_bytes_items(lv) =~= old(out)@
            + enc_bytes_list(lv));
    }
}

pub fn emit_circuit(out: &mut Vec<u8>, c: &Circuit)
    ensures
        final(out)@ == old(out)@ + enc_circuit(c@),
        circuit_fits(c@),
{
    emit_str(out, c.circuit_id.as_str());
    emit_auth(out, c.authorization_type);
    emit_pers(out, c.persistence);
    emit_route(out, c.routes);
    emit_dur(out, c.durability);
    emit_str(out, c.circuit_management_type.as_str());
    emit_node_list(out, &c.members);
    emit_service_list(out, &c.roster);
    proof {
        assert(final(out)@ =~= old(out)@ + enc_circuit(c@));
    }
}

/// Encodes a circuit management payload in its canonical binary form; the
/// proposal digest is computed over exactly these bytes.
pub fn encode_payload(p: &CircuitManagementPayload) -> (r: Vec<u8>)
    ensures
        r@ == enc_payload(p@),
        payload_fits(p@),
{
    let mut out: Vec<u8> = Vec::new();
    match p {
        CircuitManagementPayload::CircuitCreateRequest(c) => {
            emit_tag(&mut out, 1u8);
            emit_circuit(&mut out, c);
        },
        CircuitManagementPayload::CircuitProposalVote(v) => {
            emit_tag(&mut out, 2u8);
            emit_bytes(&mut out, v.proposal_id.as_slice());
            emit_vote(&mut out, v.vote);
        },
    }
    proof {
        assert(out@ =~= enc_payload(p@));
    }
    out
}

/// Encodes an admin envelope in its canonical binary form.
pub fn encode_admin_message(m: &AdminMessage) -> (r: Vec<u8>)
    ensures
        r@ == enc_admin(m@),
        admin_fits(m@),
{
    let mut out: Vec<u8> = Vec::new();
    match m {
        AdminMessage::ConsensusMessage(b) => {
            emit_tag(&mut out, 1u8);
            emit_bytes(&mut out, b.as_slice());
        },
        AdminMessage::ProposedCircuit { expected_hash, circuit_payload, required_verifiers } => {
            emit_tag(&mut out, 2u8);
            emit_bytes(&mut out, expected_hash.as_slice());
            emit_bytes(&mut out, circuit_payload.as_slice());
            emit_bytes_list(&mut out, required_verifiers);
        },
    }
    proof {
        assert(out@ =~= enc_admin(m@));
    }
    out
}

} // verus!

verus! {

// ---------------------------------------------------------------------------
// Executable decoders for the composites
// ---------------------------------------------------------------------------

pub fn read_auth(buf: &[u8], pos: usize) -> (r: Option<(AuthorizationType, usize)>)
    requires
        pos <= buf@.len(),
    ensures
        match r {
            Some((v, j)) => parse_auth(buf@, pos as int) == Some((v, j as int)) && pos <= j
                <= buf@.len(),
            None => parse_auth(buf@, pos as int) is None,
        },
{
    match read_tag(buf, pos) {
        Some((t, j)) => {
            if t == 1 {
                Some((AuthorizationType::Trust, j))
            } else if t == 2 {
                Some((AuthorizationType::Challenge, j))
            } else {
                None
            }
        },
        None => None,
    }
}

pub fn read_pers(buf: &[u8], pos: usize) -> (r: Option<(PersistenceType, usize)>)
    requires
        pos <= buf@.len(),
    ensures
        match r {
            Some((v, j)) => parse_pers(buf@, pos as int) == Some((v, j as int)) && pos <= j
                <= buf@.len(),
            None => parse_pers(buf@, pos as int) is None,
        },
{
    match read_tag(buf, pos) {
        Some((t, j)) => {
            if t == 1 {
                Some((PersistenceType::Any, j))
            } else if t == 2 {
                Some((PersistenceType::Memory, j))
            } else {
                None
            }
        },
        None => None,
    }
}

pub fn read_route(buf: &[u8], pos: usize) -> (r: Option<(RouteType, usize)>)
    requires
        pos <= buf@.len(),
    ensures
        match r {
            Some((v, j)) => parse_route(buf@, pos as int) == Some((v, j as int)) && pos <= j
                <= buf@.len(),
            None => parse_route(buf@, pos as int) is None,
        },
{
    match read_tag(buf, pos) {
        Some((t, j)) => {
            if t == 1 {
                Some((RouteType::Any, j))
            } else if t == 2 {
                Some((RouteType::Direct, j))
            } else {
                None
            }
        },
        None => None,
    }
}

pub fn read_dur(buf: &[u8], pos: usize) -> (r: Option<(DurabilityType, usize)>)
    requires
        pos <= buf@.len(),
    ensures
        match r {
            Some((v, j)) => parse_dur(buf@, pos as int) == Some((v, j as int)) && pos <= j
                <= buf@.len(),
            None => parse_dur(buf@, pos as int) is None,
        },
{
    match read_tag(buf, pos) {
        Some((t, j)) => {
            if t == 1 {
                Some((DurabilityType::NoDurability, j))
            } else if t == 2 {
                Some((DurabilityType::Durable, j))
            } else {
                None
            }
        },
        None => None,
    }
}

pub fn read_vote(buf: &[u8], pos: usize) -> (r: Option<(Vote, usize)>)
    requires
        pos <= buf@.len(),
    ensures
        match r {
            Some((v, j)) => parse_vote(buf@, pos as int) == Some((v, j as int)) && pos <= j
                <= buf@.len(),
            None => parse_vote(buf@, pos as int) is None,
        },
{
    match read_tag(buf, pos) {
        Some((t, j)) => {
            if t == 1 {
                Some((Vote::Accept, j))
            } else if t == 2 {
                Some((Vote::Reject, j))
            } else {
                None
            }
        },
        None => None,
    }
}

pub fn read_node(buf: &[u8], pos: usize) -> (r: Option<(SplinterNode, usize)>)
    requires
        pos <= buf@.len(),
    ensures
        match r {
            Some((v, j)) => parse_node(buf@, pos as int) == Some((v@, j as int)) && pos <= j
                <= buf@.len(),
            None => parse_node(buf@, pos as int) is None,
        },
{
    match read_string(buf, pos) {
        Some((node_id, j)) => {
            match read_string(buf, j) {
                Some((endpoint, k)) => Some((SplinterNode { node_id, endpoint }, k)),
                None => None,
            }
        },
        None => None,
    }
}

pub fn read_str_list(buf: &[u8], pos: usize) -> (r: Option<(Vec<String>, usize)>)
    requires
        pos <= buf@.len(),
    ensures
        match r {
            Some((v, j)) => parse_str_list(buf@, pos as int) == Some(
                (crate::messages::strings_view(v@), j as int),
            ) && pos <= j <= buf@.len(),
            None => parse_str_list(buf@, pos as int) is None,
        },
{
    match read_u64(buf, pos) {
        Some((n, j0)) => {
            let mut acc: Vec<String> = Vec::new();
            let mut cur: usize = j0;
            let mut k: u64 = 0;
            proof {
                assert(crate::messages::strings_view(acc@) =~= Seq::<Seq<char>>::empty());
                match parse_str_items(buf@, j0 as int, n as nat) {
                    Some((tail, end)) => {
                        assert(crate::messages::strings_view(acc@) + tail =~= tail);
                    },
                    None => {},
                }
            }
            while k < n
                invariant
                    pos <= cur <= buf@.len(),
                    k <= n,
                    parse_u64(buf@, pos as int) == Some((n, j0 as int)),
                    (match parse_str_items(buf@, cur as int, (n - k) as nat) {
                        Some((tail, end)) => parse_str_items(buf@, j0 as int, n as nat) == Some(
                            (crate::messages::strings_view(acc@) + tail, end),
                        ),
                        None => parse_str_items(buf@, j0 as int, n as nat) is None,
                    }),
                decreases n - k,
            {
                match read_string(buf, cur) {
                    Some((s, j2)) => {
                        let ghost prev = crate::messages::strings_view(acc@);
                        acc.push(s);
                        proof {
                            assert(crate::messages::strings_view(acc@) =~= prev.push(s@));
                            assert(parse_str_items(buf@, cur as int, (n - k) as nat) == (
                            match parse_str_items(buf@, j2 as int, (n - k - 1) as nat) {
                                Some((l2, k2)) => Some((seq![s@] + l2, k2)),
                                None => None,
                            }));
                            match parse_str_items(buf@, j2 as int, (n - k - 1) as nat) {
                                Some((l2, k2)) => {
                                    assert(prev + (seq![s@] + l2) =~= prev.push(s@) + l2);
                                },
                                None => {},
                            }
                        }
                        cur = j2;
                        k = k + 1;
                    },
                    None => {
                        proof {
                            assert(parse_str_items(buf@, cur as int, (n - k) as nat) is None);
                            assert(parse_str_items(buf@, j0 as int, n as nat) is None);
                            assert(parse_str_list(buf@, pos as int) is None);
                        }
                        return None;
                    },
                }
            }
            proof {
                assert(parse_str_items(buf@, cur as int, (n - k) as nat) == Some(
                    (Seq::<Seq<char>>::empty(), cur as int),
                ));
                assert(crate::messages::strings_view(acc@) + Seq::<Seq<char>>::empty()
                    =~= crate::messages::strings_view(acc@));
            }
            Some((acc, cur))
        },
        None => None,
    }
}

pub fn read_bytes_list(buf: &[u8], pos: usize) -> (r: Option<(Vec<Vec<u8>>, usize)>)
    requires
        pos <= buf@.len(),
    ensures
        match r {
            Some((v, j)) => parse_bytes_list(buf@, pos as int) == Some(
                (crate::messages::byte_vecs_view(v@), j as int),
            ) && pos <= j <= buf@.len(),
            None => parse_bytes_list(buf@, pos as int) is None,
        },
{
    match read_u64(buf, pos) {
        Some((n, j0)) => {
            let mut acc: Vec<Vec<u8>> = Vec::new();
            let mut cur: usize = j0;
            let mut k: u64 = 0;
            proof {
                assert(crate::messages::byte_vecs_view(acc@) =~= Seq::<Seq<u8>>::empty());
                match parse_bytes_items(buf@, j0 as int, n as nat) {
                    Some((tail, end)) => {
                        assert(crate::messages::byte_vecs_view(acc@) + tail =~= tail);
                    },
                    None => {},
                }
            }
            while k < n
                invariant
                    pos <= cur <= buf@.len(),
                    k <= n,
                    parse_u64(buf@, pos as int) == Some((n, j0 as int)),
                    (match parse_bytes_items(buf@, cur as int, (n - k) as nat) {
                        Some((tail, end)) => parse_bytes_items(buf@, j0 as int, n as nat) == Some(
                            (crate::messages::byte_vecs_view(acc@) + tail, end),
                        ),
                        None => parse_bytes_items(buf@, j0 as int, n as nat) is None,
                    }),
                decreases n - k,
            {
                match read_bytes(buf, cur) {
                    Some((s, j2)) => {
                        let ghost prev = crate::messages::byte_vecs_view(acc@);
                        acc.push(s);
                        proof {
                            assert(crate::messages::byte_vecs_view(acc@) =~= prev.push(acc@.last()@));
                            assert(parse_bytes_items(buf@, cur as int, (n - k) as nat) == (
                            match parse_bytes_items(buf@, j2 as int, (n - k - 1) as nat) {
                                Some((l2, k2)) => Some((seq![acc@.last()@] + l2, k2)),
                                None => None,
                            }));
                            match parse_bytes_items(buf@, j2 as int, (n - k - 1) as nat) {
                                Some((l2, k2)) => {
                                    assert(prev + (seq![acc@.last()@] + l2) =~= prev.push(
                                        acc@.last()@,
                                    ) + l2);
                                },
                                None => {},
                            }
                        }
                        cur = j2;
                        k = k + 1;
                    },
                    None => {
                        proof {
                            assert(parse_bytes_items(buf@, cur as int, (n - k) as nat) is None);
                            assert(parse_bytes_items(buf@, j0 as int, n as nat) is None);
                            assert(parse_bytes_list(buf@, pos as int) is None);
                        }
                        return None;
                    },
                }
            }
            proof {
                assert(parse_bytes_items(buf@, cur as int, (n - k) as nat) == Some(
                    (Seq::<Seq<u8>>::empty(), cur as int),
                ));
                assert(crate::messages::byte_vecs_view(acc@) + Seq::<Seq<u8>>::empty()
                    =~= crate::messages::byte_vecs_view(acc@));
            }
            Some((acc, cur))
        },
        None => None,
    }
}

pub fn read_service(buf: &[u8], pos: usize) -> (r: Option<(SplinterService, usize)>)
    requires
        pos <= buf@.len(),
    ensures
        match r {
            Some((v, j)) => parse_service(buf@, pos as int) == Some((v@, j as int)) && pos <= j
                <= buf@.len(),
            None => parse_service(buf@, pos as int) is None,
        },
{
    match read_string(buf, pos) {
        Some((service_id, j)) => {
            match read_string(buf, j) {
                Some((service_type, k)) => {
                    match read_str_list(buf, k) {
                        Some((allowed_nodes, m)) => Some(
                            (SplinterService { service_id, service_type, allowed_nodes }, m),
                        ),
                        None => None,
                    }
                },
                None => None,
            }
        },
        None => None,
    }
}

pub fn read_node_list(buf: &[u8], pos: usize) -> (r: Option<(Vec<SplinterNode>, usize)>)
    requires
        pos <= buf@.len(),
    ensures
        match r {
            Some((v, j)) => parse_node_list(buf@, pos as int) == Some(
                (crate::messages::nodes_view(v@), j as int),
            ) && pos <= j <= buf@.len(),
            None => parse_node_list(buf@, pos as int) is None,
        },
{
    match read_u64(buf, pos) {
        Some((n, j0)) => {
            let mut acc: Vec<SplinterNode> = Vec::new();
            let mut cur: usize = j0;
            let mut k: u64 = 0;
            proof {
                assert(crate::messages::nodes_view(acc@) =~= Seq::<SplinterNodeView>::empty());
                match parse_node_items(buf@, j0 as int, n as nat) {
                    Some((tail, end)) => {
                        assert(crate::messages::nodes_view(acc@) + tail =~= tail);
                    },
                    None => {},
                }
            }
            while k < n
                invariant
                    pos <= cur <= buf@.len(),
                    k <= n,
                    parse_u64(buf@, pos as int) == Some((n, j0 as int)),
                    (match parse_node_items(buf@, cur as int, (n - k) as nat) {
                        Some((tail, end)) => parse_node_items(buf@, j0 as int, n as nat) == Some(
                            (crate::messages::nodes_view(acc@) + tail, end),
                        ),
                        None => parse_node_items(buf@, j0 as int, n as nat) is None,
                    }),
                decreases n - k,
            {
                match read_node(buf, cur) {
                    Some((s, j2)) => {
                        let ghost prev = crate::messages::nodes_view(acc@);
                        let ghost sv = s@;
                        acc.push(s);
                        proof {
                            assert(crate::messages::nodes_view(acc@) =~= prev.push(sv));
                            assert(parse_node_items(buf@, cur as int, (n - k) as nat) == (
                            match parse_node_items(buf@, j2 as int, (n - k - 1) as nat) {
                                Some((l2, k2)) => Some((seq![sv] + l2, k2)),
                                None => None,
                            }));
                            match parse_node_items(buf@, j2 as int, (n - k - 1) as nat) {
                                Some((l2, k2)) => {
                                    assert(prev + (seq![sv] + l2) =~= prev.push(sv) + l2);
                                },
                                None => {},
                            }
                        }
                        cur = j2;
                        k = k + 1;
                    },
                    None => {
                        proof {
                            assert(parse_node_items(buf@, cur as int, (n - k) as nat) is None);
                            assert(parse_node_items(buf@, j0 as int, n as nat) is None);
                            assert(parse_node_list(buf@, pos as int) is None);
                        }
                        return None;
                    },
                }
            }
            proof {
                assert(parse_node_items(buf@, cur as int, (n - k) as nat) == Some(
                    (Seq::<SplinterNodeView>::empty(), cur as int),
                ));
                assert(crate::messages::nodes_view(acc@) + Seq::<SplinterNodeView>::empty()
                    =~= crate::messages::nodes_view(acc@));
            }
            Some((acc, cur))
        },
        None => None,
    }
}

pub fn read_service_list(buf: &[u8], pos: usize) -> (r: Option<(Vec<SplinterService>, usize)>)
    requires
        pos <= buf@.len(),
    ensures
        match r {
            Some((v, j)) => parse_service_list(buf@, pos as int) == Some(
                (crate::messages::services_view(v@), j as int),
            ) && pos <= j <= buf@.len(),
            None => parse_service_list(buf@, pos as int) is None,
        },
{
    match read_u64(buf, pos) {
        Some((n, j0)) => {
            let mut acc: Vec<SplinterService> = Vec::new();
            let mut cur: usize = j0;
            let mut k: u64 = 0;
            proof {
                assert(crate::messages::services_view(acc@) =~= Seq::<SplinterServiceView>::empty());
                match parse_service_items(buf@, j0 as int, n as nat) {
                    Some((tail, end)) => {
                        assert(crate::messages::services_view(acc@) + tail =~= tail);
                    },
                    None => {},
                }
            }
            while k < n
                invariant
                    pos <= cur <= buf@.len(),
                    k <= n,
                    parse_u64(buf@, pos as int) == Some((n, j0 as int)),
                    (match parse_service_items(buf@, cur as int, (n - k) as nat) {
                        Some((tail, end)) => parse_service_items(buf@, j0 as int, n as nat)
                            == Some(
                            (crate::messages::services_view(acc@) + tail, end),
                        ),
                        None => parse_service_items(buf@, j0 as int, n as nat) is None,
                    }),
                decreases n - k,
            {
                match read_service(buf, cur) {
                    Some((s, j2)) => {
                        let ghost prev = crate::messages::services_view(acc@);
                        let ghost sv = s@;
                        acc.push(s);
                        proof {
                            assert(crate::messages::services_view(acc@) =~= prev.push(sv));
                            assert(parse_service_items(buf@, cur as int, (n - k) as nat) == (
                            match parse_service_items(buf@, j2 as int, (n - k - 1) as nat) {
                                Some((l2, k2)) => Some((seq![sv] + l2, k2)),
                                None => None,
                            }));
                            match parse_service_items(buf@, j2 as int, (n - k - 1) as nat) {
                                Some((l2, k2)) => {
                                    assert(prev + (seq![sv] + l2) =~= prev.push(sv) + l2);
                                },
                                None => {},
                            }
                        }
                        cur = j2;
                        k = k + 1;
                    },
                    None => {
                        proof {
                            assert(parse_service_items(buf@, cur as int, (n - k) as nat) is None);
                            assert(parse_service_items(buf@, j0 as int, n as nat) is None);
                            assert(parse_service_list(buf@, pos as int) is None);
                        }
                        return None;
                    },
                }
            }
            proof {
                assert(parse_service_items(buf@, cur as int, (n - k) as nat) == Some(
                    (Seq::<SplinterServiceView>::empty(), cur as int),
                ));
                assert(crate::messages::services_view(acc@) + Seq::<SplinterServiceView>::empty()
                    =~= crate::messages::services_view(acc@));
            }
            Some((acc, cur))
        },
        None => None,
    }
}

pub fn read_circuit(buf: &[u8], pos: usize) -> (r: Option<(Circuit, usize)>)
    requires
        pos <= buf@.len(),
    ensures
        match r {
            Some((v, j)) => parse_circuit(buf@, pos as int) == Some((v@, j as int)) && pos <= j
                <= buf@.len(),
            None => parse_circuit(buf@, pos as int) is None,
        },
{
    let r1 = read_string(buf, pos);
    match r1 {
        Some((circuit_id, i1)) => match read_auth(buf, i1) {
            Some((authorization_type, i2)) => match read_pers(buf, i2) {
                Some((persistence, i3)) => match read_route(buf, i3) {
                    Some((routes, i4)) => match read_dur(buf, i4) {
                        Some((durability, i5)) => match read_string(buf, i5) {
                            Some((circuit_management_type, i6)) => match read_node_list(buf, i6) {
                                Some((members, i7)) => match read_service_list(buf, i7) {
                                    Some((roster, i8)) => Some(
                                        (
                                            Circuit {
                                                circuit_id,
                                                authorization_type,
                                                persistence,
                                                routes,
                                                durability,
                                                circuit_management_type,
                                                members,
                                                roster,
                                            },
                                            i8,
                                        ),
                                    ),
                                    None => None,
                                },
                                None => None,
                            },
                            None => None,
                        },
                        None => None,
                    },
                    None => None,
                },
                None => None,
            },
            None => None,
        },
        None => None,
    }
}

/// Decodes a canonical circuit management payload, rejecting anything that
/// does not parse or that leaves trailing bytes.
pub fn decode_payload(buf: &[u8]) -> (r: Result<CircuitManagementPayload, AdminError>)
    ensures
        (match parse_payload(buf@, 0) {
            Some((pv, j)) => {
                if j == buf@.len() {
                    r matches Ok(p) && p@ == pv
                } else {
                    r matches Err(e) && e == AdminError::InvalidMessageFormat
                }
            },
            None => r matches Err(e) && e == AdminError::InvalidMessageFormat,
        }),
{
    match read_tag(buf, 0) {
        Some((t, j)) => {
            if t == 1 {
                match read_circuit(buf, j) {
                    Some((c, k)) => {
                        if k == buf.len() {
                            Ok(CircuitManagementPayload::CircuitCreateRequest(c))
                        } else {
                            Err(AdminError::InvalidMessageFormat)
                        }
                    },
                    None => Err(AdminError::InvalidMessageFormat),
                }
            } else if t == 2 {
                match read_bytes(buf, j) {
                    Some((proposal_id, k)) => {
                        match read_vote(buf, k) {
                            Some((vote, m)) => {
                                if m == buf.len() {
                                    Ok(
                                        CircuitManagementPayload::CircuitProposalVote(
                                            CircuitProposalVote { proposal_id, vote },
                                        ),
                                    )
                                } else {
                                    Err(AdminError::InvalidMessageFormat)
                                }
                            },
                            None => Err(AdminError::InvalidMessageFormat),
                        }
                    },
                    None => Err(AdminError::InvalidMessageFormat),
                }
            } else {
                Err(AdminError::InvalidMessageFormat)
            }
        },
        None => Err(AdminError::InvalidMessageFormat),
    }
}

/// Decodes a canonical admin envelope, rejecting an unset or unknown type
/// tag, anything that does not parse, and trailing bytes.
pub fn decode_admin_message(buf: &[u8]) -> (r: Result<AdminMessage, AdminError>)
    ensures
        (match parse_admin(buf@, 0) {
            Some((mv, j)) => {
                if j == buf@.len() {
                    r matches Ok(m) && m@ == mv
                } else {
                    r matches Err(e) && e == AdminError::InvalidMessageFormat
                }
            },
            None => r matches Err(e) && e == AdminError::InvalidMessageFormat,
        }),
{
    match read_tag(buf, 0) {
        Some((t, j)) => {
            if t == 1 {
                match read_bytes(buf, j) {
                    Some((b, k)) => {
                        if k == buf.len() {
                            Ok(AdminMessage::ConsensusMessage(b))
                        } else {
                            Err(AdminError::InvalidMessageFormat)
                        }
                    },
                    None => Err(AdminError::InvalidMessageFormat),
                }
            } else if t == 2 {
                match read_bytes(buf, j) {
                    Some((expected_hash, k)) => {
                        match read_bytes(buf, k) {
                            Some((circuit_payload, m)) => {
                                match read_bytes_list(buf, m) {
                                    Some((required_verifiers, n)) => {
                                        if n == buf.len() {
                                            Ok(
                                                AdminMessage::ProposedCircuit {
                                                    expected_hash,
                                                    circuit_payload,
                                                    required_verifiers,
                                                },
                                            )
                                        } else {
                                            Err(AdminError::InvalidMessageFormat)
                                        }
                                    },
                                    None => Err(AdminError::InvalidMessageFormat),
                                }
                            },
                            None => Err(AdminError::InvalidMessageFormat),
                        }
                    },
                    None => Err(AdminError::InvalidMessageFormat),
                }
            } else {
                Err(AdminError::InvalidMessageFormat)
            }
        },
        None => Err(AdminError::InvalidMessageFormat),
    }
}

} // verus!
