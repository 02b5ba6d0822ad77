use vstd::prelude::*;
use crate::metainfo::{copy_bytes, lemma_bytes_deep_view};

verus! {

pub open spec fn text_magnet_head() -> Seq<u8> {
    seq![109u8, 97u8, 103u8, 110u8, 101u8, 116u8, 58u8, 63u8, 120u8, 116u8, 61u8, 117u8, 114u8, 110u8, 58u8, 98u8, 116u8, 105u8, 104u8, 58u8]
}

fn lit_magnet_head() -> (r: [u8; 20])
    ensures
        r@ == text_magnet_head(),
{
    let r: [u8; 20] = [109u8, 97u8, 103u8, 110u8, 101u8, 116u8, 58u8, 63u8, 120u8, 116u8, 61u8, 117u8, 114u8, 110u8, 58u8, 98u8, 116u8, 105u8, 104u8, 58u8];
    assert(r@ =~= text_magnet_head());
    r
}

pub open spec fn text_dn() -> Seq<u8> {
    seq![38u8, 100u8, 110u8, 61u8]
}

fn lit_dn() -> (r: [u8; 4])
    ensures
        r@ == text_dn(),
{
    let r: [u8; 4] = [38u8, 100u8, 110u8, 61u8];
    assert(r@ =~= text_dn());
    r
}

pub open spec fn text_tr() -> Seq<u8> {
    seq![38u8, 116u8, 114u8, 61u8]
}

fn lit_tr() -> (r: [u8; 4])
    ensures
        r@ == text_tr(),
{
    let r: [u8; 4] = [38u8, 116u8, 114u8, 61u8];
    assert(r@ =~= text_tr());
    r
}


/// Bytes that percent-encoding leaves as they are: ASCII letters and digits, `-`, `.`, `_`, `~`.
pub open spec fn unreserved(b: u8) -> bool {
    (48 <= b <= 57) || (65 <= b <= 90) || (97 <= b <= 122) || b == 45 || b == 46 || b == 95 || b
        == 126
}

/// An uppercase hexadecimal digit of a value below 16.
pub open spec fn upper_hex(n: u8) -> u8 {
    if n < 10 {
        (48 + n) as u8
    } else {
        (55 + n) as u8
    }
}

/// Percent-encoding of one byte.
pub open spec fn escape_byte(b: u8) -> Seq<u8> {
    if unreserved(b) {
        seq![b]
    } else {
        seq![37u8, upper_hex(b / 16), upper_hex(b % 16)]
    }
}

/// Percent-encoding of a byte sequence, byte by byte.
pub open spec fn url_encoded(s: Seq<u8>) -> Seq<u8>
    decreases s.len(),
{
    if s.len() == 0 {
        Seq::empty()
    } else {
        url_encoded(s.drop_last()) + escape_byte(s.last())
    }
}

/// Relies on `urlencoding::encode_binary`: every byte but ASCII letters,
/// digits, `-`, `.`, `_` and `~` becomes `%` and two uppercase hex digits.
#[verifier::external_body]
fn url_encode(b: &[u8]) -> (r: Vec<u8>)
    ensures
        r@ == url_encoded(b@),
{
    urlencoding::encode_binary(b).as_bytes().to_vec()
}

pub open spec fn trackers_part(t: Seq<Seq<u8>>) -> Seq<u8>
    decreases t.len(),
{
    if t.len() == 0 {
        Seq::empty()
    } else {
        trackers_part(t.drop_last()) + text_tr() + url_encoded(t.last())
    }
}

/// `magnet:?xt=urn:btih:<hash>&dn=<title>` followed by `&tr=<tracker>` for each
/// tracker, title and trackers percent-encoded.
pub open spec fn magnet_spec(hash_hex: Seq<u8>, title: Seq<u8>, trackers: Seq<Seq<u8>>) -> Seq<u8> {
    text_magnet_head() + hash_hex + text_dn() + url_encoded(title) + trackers_part(trackers)
}

fn push_all(s: &[u8], out: &mut Vec<u8>)
    ensures
        final(out)@ == old(out)@ + s@,
{
    let mut i: usize = 0;
    while i < s.len()
        invariant
            i <= s@.len(),
            out@ == old(out)@ + s@.subrange(0, i as int),
        decreases s@.len() - i,
    {
        out.push(s[i]);
        i = i + 1;
        assert(out@ =~= old(out)@ + s@.subrange(0, i as int));
    }
    assert(s@.subrange(0, i as int) =~= s@);
}

/// The magnet link of a torrent.
pub fn magnet_link(hash_hex: &[u8], title: &[u8], trackers: &Vec<Vec<u8>>) -> (r: Vec<u8>)
    ensures
        r@ == magnet_spec(hash_hex@, title@, trackers.deep_view()),
{
    let mut out: Vec<u8> = Vec::new();
    push_all(&lit_magnet_head(), &mut out);
    push_all(hash_hex, &mut out);
    push_all(&lit_dn(), &mut out);
    let t = url_encode(title);
    push_all(t.as_slice(), &mut out);
    let ghost head = out@;
    let mut i: usize = 0;
    while i < trackers.len()
        invariant
            i <= trackers@.len(),
            out@ == head + trackers_part(trackers.deep_view().subrange(0, i as int)),
        decreases trackers@.len() - i,
    {
        push_all(&lit_tr(), &mut out);
        let e = url_encode(trackers[i].as_slice());
        push_all(e.as_slice(), &mut out);
        proof {
            lemma_bytes_deep_view(trackers@[i as int]);
        }
        assert(trackers.deep_view().subrange(0, i + 1).drop_last() =~= trackers.deep_view().subrange(0, i as int));
        i = i + 1;
        assert(out@ =~= head + trackers_part(trackers.deep_view().subrange(0, i as int)));
    }
    assert(trackers.deep_view().subrange(0, i as int) =~= trackers.deep_view());
    assert(out@ =~= magnet_spec(hash_hex@, title@, trackers.deep_view()));
    out
}

/// The trackers shown for a torrent: `first` (the user's own announce URL, or
/// the site tracker) ahead of those the torrent file names.
pub fn response_trackers(first: &[u8], from_file: Vec<Vec<u8>>) -> (r: Vec<Vec<u8>>)
    ensures
        r.deep_view() == seq![first@] + from_file.deep_view(),
{
    let mut r = from_file;
    let f = copy_bytes(first);
    proof {
        lemma_bytes_deep_view(f);
    }
    let ghost before = r.deep_view();
    r.insert(0, f);
    assert(r.deep_view() =~= seq![first@] + before);
    r
}

} // verus!
