use vstd::prelude::*;
use crate::bencode::{Bencode, canonical, decode, encode, encode_spec, encode_into, push_nat, dec_nat};
use crate::error::ServiceError;

verus! {

/// The entry of `key` in a dictionary's entries (the first, should there be several).
pub open spec fn field(s: Seq<(Vec<u8>, Bencode)>, key: Seq<u8>) -> Option<Bencode>
    decreases s.len(),
{
    if s.len() == 0 {
        None
    } else if s[0].0@ == key {
        Some(s[0].1)
    } else {
        field(s.drop_first(), key)
    }
}

/// The byte string stored under `key`, if that entry is a byte string.
pub open spec fn bytes_field(s: Seq<(Vec<u8>, Bencode)>, key: Seq<u8>) -> Option<Seq<u8>> {
    match field(s, key) {
        Some(Bencode::Bytes(b)) => Some(b@),
        _ => None,
    }
}

/// The integer stored under `key`, if that entry is an integer.
pub open spec fn int_field(s: Seq<(Vec<u8>, Bencode)>, key: Seq<u8>) -> Option<i64> {
    match field(s, key) {
        Some(Bencode::Int(n)) => Some(n),
        _ => None,
    }
}

/// `v` is a list of byte strings.
pub open spec fn is_byte_list(v: Bencode) -> bool {
    v matches Bencode::List(us) && forall|j: int| 0 <= j < us@.len() ==> us@[j] is Bytes
}

/// `v` is a list of byte strings whose contents are `t`.
pub open spec fn byte_list_holds(v: Bencode, t: Seq<Seq<u8>>) -> bool {
    match v {
        Bencode::List(us) => us@.len() == t.len() && forall|j: int|
            0 <= j < t.len() ==> (#[trigger] us@[j] matches Bencode::Bytes(b) && b@ == t[j]),
        _ => false,
    }
}

/// `v` is an announce list whose tiers are `t`.
pub open spec fn tier_list_holds(v: Bencode, t: Seq<Seq<Seq<u8>>>) -> bool {
    match v {
        Bencode::List(ts) => ts@.len() == t.len() && forall|i: int|
            0 <= i < t.len() ==> byte_list_holds(#[trigger] ts@[i], t[i]),
        _ => false,
    }
}

pub open spec fn opt_bytes(o: Option<Vec<u8>>) -> Option<Seq<u8>> {
    match o {
        Some(v) => Some(v@),
        None => None,
    }
}

pub open spec fn opt_tiers(o: Option<Vec<Vec<Vec<u8>>>>) -> Option<Seq<Seq<Seq<u8>>>> {
    match o {
        Some(v) => Some(v.deep_view()),
        None => None,
    }
}

pub proof fn lemma_bytes_deep_view(v: Vec<u8>)
    ensures
        v.deep_view() == v@,
{
    assert(v.deep_view() =~= v@);
}

/// Byte-wise equality of two slices.
pub fn bytes_eq(a: &[u8], b: &[u8]) -> (r: bool)
    ensures
        r == (a@ == b@),
{
    if a.len() != b.len() {
        return false;
    }
    let mut i: usize = 0;
    while i < a.len()
        invariant
            a@.len() == b@.len(),
            i <= a@.len(),
            forall|k: int| 0 <= k < i ==> a@[k] == b@[k],
        decreases a@.len() - i,
    {
        if a[i] != b[i] {
            return false;
        }
        i = i + 1;
    }
    assert(a@ =~= b@);
    true
}

/// A fresh copy of a byte string.
pub fn copy_bytes(b: &[u8]) -> (r: Vec<u8>)
    ensures
        r@ == b@,
{
    let mut r: Vec<u8> = Vec::new();
    let mut i: usize = 0;
    while i < b.len()
        invariant
            i <= b@.len(),
            r@ == b@.subrange(0, i as int),
        decreases b@.len() - i,
    {
        r.push(b[i]);
        i = i + 1;
        assert(r@ =~= b@.subrange(0, i as int));
    }
    assert(b@.subrange(0, i as int) =~= b@);
    r
}

/// The position of `key` among a dictionary's entries.
pub fn find_key(entries: &Vec<(Vec<u8>, Bencode)>, key: &[u8]) -> (r: Option<usize>)
    ensures
        match r {
            Some(i) => i < entries@.len() && field(entries@, key@) == Some(entries@[i as int].1),
            None => field(entries@, key@) is None,
        },
{
    let mut i: usize = 0;
    assert(entries@.subrange(0, entries@.len() as int) =~= entries@);
    while i < entries.len()
        invariant
            i <= entries@.len(),
            field(entries@, key@) == field(entries@.subrange(i as int, entries@.len() as int), key@),
        decreases entries@.len() - i,
    {
        let ghost rest = entries@.subrange(i as int, entries@.len() as int);
        assert(rest[0] == entries@[i as int]);
        if bytes_eq(entries[i].0.as_slice(), key) {
            return Some(i);
        }
        assert(rest.drop_first() =~= entries@.subrange(i + 1, entries@.len() as int));
        i = i + 1;
    }
    assert(entries@.subrange(i as int, entries@.len() as int).len() == 0);
    None
}

fn get_bytes(entries: &Vec<(Vec<u8>, Bencode)>, key: &[u8]) -> (r: Option<Vec<u8>>)
    ensures
        opt_bytes(r) == bytes_field(entries@, key@),
{
    match find_key(entries, key) {
        None => None,
        Some(i) => match &entries[i].1 {
            Bencode::Bytes(b) => Some(copy_bytes(b.as_slice())),
            _ => None,
        },
    }
}

fn get_int(entries: &Vec<(Vec<u8>, Bencode)>, key: &[u8]) -> (r: Option<i64>)
    ensures
        r == int_field(entries@, key@),
{
    match find_key(entries, key) {
        None => None,
        Some(i) => match &entries[i].1 {
            Bencode::Int(n) => Some(*n),
            _ => None,
        },
    }
}

proof fn lemma_holds_is_byte_list(v: Bencode, t: Seq<Seq<u8>>)
    requires
        byte_list_holds(v, t),
    ensures
        is_byte_list(v),
{
    if let Bencode::List(us) = v {
        assert forall|j: int| 0 <= j < us@.len() implies us@[j] is Bytes by {
            assert(us@[j] matches Bencode::Bytes(b) && b@ == t[j]);
        }
    }
}

/// Reads a list of byte strings.
fn read_byte_list(v: &Bencode) -> (r: Option<Vec<Vec<u8>>>)
    ensures
        r is Some <==> is_byte_list(*v),
        r matches Some(t) ==> byte_list_holds(*v, t.deep_view()),
{
    match v {
        Bencode::List(us) => {
            let mut out: Vec<Vec<u8>> = Vec::new();
            let mut j: usize = 0;
            while j < us.len()
                invariant
                    j <= us@.len(),
                    *v == Bencode::List(*us),
                    out@.len() == j,
                    forall|k: int| 0 <= k < j ==> (#[trigger] us@[k] matches Bencode::Bytes(b) && b@ == out@[k]@),
                decreases us@.len() - j,
            {
                match &us[j] {
                    Bencode::Bytes(b) => {
                        out.push(copy_bytes(b.as_slice()));
                    },
                    _ => {
                        assert(!(us@[j as int] is Bytes));
                        return None;
                    },
                }
                j = j + 1;
            }
            proof {
                assert(out.deep_view().len() == us@.len());
                assert forall|k: int| 0 <= k < us@.len() implies (#[trigger] us@[k] matches Bencode::Bytes(
                    b,
                ) && b@ == out.deep_view()[k]) by {
                    lemma_bytes_deep_view(out@[k]);
                }
            }
            Some(out)
        },
        _ => None,
    }
}

/// Reads an announce list: a list of tiers, each a list of URLs.
fn read_tier_list(v: &Bencode, hint: Ghost<Seq<Seq<Seq<u8>>>>) -> (r: Option<Vec<Vec<Vec<u8>>>>)
    ensures
        tier_list_holds(*v, hint@) ==> r is Some,
        r matches Some(t) ==> tier_list_holds(*v, t.deep_view()),
{
    match v {
        Bencode::List(ts) => {
            let mut out: Vec<Vec<Vec<u8>>> = Vec::new();
            let mut i: usize = 0;
            while i < ts.len()
                invariant
                    i <= ts@.len(),
                    *v == Bencode::List(*ts),
                    out@.len() == i,
                    forall|k: int| 0 <= k < i ==> byte_list_holds(#[trigger] ts@[k], out@[k].deep_view()),
                decreases ts@.len() - i,
            {
                match read_byte_list(&ts[i]) {
                    Some(t) => {
                        out.push(t);
                    },
                    None => {
                        proof {
                            if tier_list_holds(*v, hint@) {
                                lemma_holds_is_byte_list(ts@[i as int], hint@[i as int]);
                            }
                        }
                        return None;
                    },
                }
                i = i + 1;
            }
            assert(out.deep_view().len() == ts@.len());
            Some(out)
        },
        _ => None,
    }
}

pub open spec fn key_announce() -> Seq<u8> {
    seq![97u8, 110u8, 110u8, 111u8, 117u8, 110u8, 99u8, 101u8]
}

pub open spec fn key_announce_list() -> Seq<u8> {
    seq![97u8, 110u8, 110u8, 111u8, 117u8, 110u8, 99u8, 101u8, 45u8, 108u8, 105u8, 115u8, 116u8]
}

pub open spec fn key_info() -> Seq<u8> {
    seq![105u8, 110u8, 102u8, 111u8]
}

pub open spec fn key_name() -> Seq<u8> {
    seq![110u8, 97u8, 109u8, 101u8]
}

pub open spec fn key_piece_length() -> Seq<u8> {
    seq![112u8, 105u8, 101u8, 99u8, 101u8, 32u8, 108u8, 101u8, 110u8, 103u8, 116u8, 104u8]
}

pub open spec fn key_pieces() -> Seq<u8> {
    seq![112u8, 105u8, 101u8, 99u8, 101u8, 115u8]
}

pub open spec fn key_length() -> Seq<u8> {
    seq![108u8, 101u8, 110u8, 103u8, 116u8, 104u8]
}

pub open spec fn key_files() -> Seq<u8> {
    seq![102u8, 105u8, 108u8, 101u8, 115u8]
}

pub open spec fn key_path() -> Seq<u8> {
    seq![112u8, 97u8, 116u8, 104u8]
}

pub open spec fn key_md5sum() -> Seq<u8> {
    seq![109u8, 100u8, 53u8, 115u8, 117u8, 109u8]
}

fn announce_key() -> (r: [u8; 8])
    ensures
        r@ == key_announce(),
{
    let r: [u8; 8] = [97u8, 110u8, 110u8, 111u8, 117u8, 110u8, 99u8, 101u8];
    assert(r@ =~= key_announce());
    r
}

fn announce_list_key() -> (r: [u8; 13])
    ensures
        r@ == key_announce_list(),
{
    let r: [u8; 13] = [97u8, 110u8, 110u8, 111u8, 117u8, 110u8, 99u8, 101u8, 45u8, 108u8, 105u8, 115u8, 116u8];
    assert(r@ =~= key_announce_list());
    r
}

fn info_key() -> (r: [u8; 4])
    ensures
        r@ == key_info(),
{
    let r: [u8; 4] = [105u8, 110u8, 102u8, 111u8];
    assert(r@ =~= key_info());
    r
}

fn name_key() -> (r: [u8; 4])
    ensures
        r@ == key_name(),
{
    let r: [u8; 4] = [110u8, 97u8, 109u8, 101u8];
    assert(r@ =~= key_name());
    r
}

fn piece_length_key() -> (r: [u8; 12])
    ensures
        r@ == key_piece_length(),
{
    let r: [u8; 12] = [112u8, 105u8, 101u8, 99u8, 101u8, 32u8, 108u8, 101u8, 110u8, 103u8, 116u8, 104u8];
    assert(r@ =~= key_piece_length());
    r
}

fn pieces_key() -> (r: [u8; 6])
    ensures
        r@ == key_pieces(),
{
    let r: [u8; 6] = [112u8, 105u8, 101u8, 99u8, 101u8, 115u8];
    assert(r@ =~= key_pieces());
    r
}

fn length_key() -> (r: [u8; 6])
    ensures
        r@ == key_length(),
{
    let r: [u8; 6] = [108u8, 101u8, 110u8, 103u8, 116u8, 104u8];
    assert(r@ =~= key_length());
    r
}

fn files_key() -> (r: [u8; 5])
    ensures
        r@ == key_files(),
{
    let r: [u8; 5] = [102u8, 105u8, 108u8, 101u8, 115u8];
    assert(r@ =~= key_files());
    r
}

fn path_key() -> (r: [u8; 4])
    ensures
        r@ == key_path(),
{
    let r: [u8; 4] = [112u8, 97u8, 116u8, 104u8];
    assert(r@ =~= key_path());
    r
}

fn md5sum_key() -> (r: [u8; 6])
    ensures
        r@ == key_md5sum(),
{
    let r: [u8; 6] = [109u8, 100u8, 53u8, 115u8, 117u8, 109u8];
    assert(r@ =~= key_md5sum());
    r
}


/// One file of a multi-file torrent.
pub struct TorrentFile {
    pub path: Vec<Vec<u8>>,
    pub length: i64,
    pub md5sum: Option<Vec<u8>>,
}

/// The typed reading of an `info` dictionary. Exactly one of `length`
/// (single file) and `files` (several files) is present.
pub struct InfoDict {
    pub name: Vec<u8>,
    pub piece_length: i64,
    pub length: Option<i64>,
    pub files: Option<Vec<TorrentFile>>,
}

/// `v` is a file entry (a dictionary) that `f` reads faithfully.
pub open spec fn file_holds(v: Bencode, f: TorrentFile) -> bool {
    match v {
        Bencode::Dict(e) => {
            &&& int_field(e@, key_length()) == Some(f.length)
            &&& f.length >= 0
            &&& f.path@.len() > 0
            &&& field(e@, key_path()) matches Some(p) && byte_list_holds(p, f.path.deep_view())
            &&& opt_bytes(f.md5sum) == bytes_field(e@, key_md5sum())
            &&& field(e@, key_md5sum()) is Some ==> f.md5sum is Some
        },
        _ => false,
    }
}

/// `v` is an `info` dictionary that `d` reads faithfully; its `pieces` hold
/// whole 20-byte piece hashes.
pub open spec fn info_holds(v: Bencode, d: InfoDict) -> bool {
    match v {
        Bencode::Dict(e) => {
            &&& bytes_field(e@, key_name()) == Some(d.name@)
            &&& int_field(e@, key_piece_length()) == Some(d.piece_length)
            &&& bytes_field(e@, key_pieces()) matches Some(p) && p.len() % 20 == 0
            &&& match d.length {
                Some(n) => {
                    &&& int_field(e@, key_length()) == Some(n)
                    &&& n >= 0
                    &&& field(e@, key_files()) is None
                    &&& d.files is None
                },
                None => {
                    &&& field(e@, key_length()) is None
                    &&& d.files matches Some(fs) && field(e@, key_files()) matches Some(
                        Bencode::List(items),
                    ) && items@.len() == fs@.len() && forall|i: int|
                        0 <= i < fs@.len() ==> file_holds(#[trigger] items@[i], fs@[i])
                },
            }
        },
        _ => false,
    }
}

fn read_file(v: &Bencode, hint: Ghost<TorrentFile>) -> (r: Option<TorrentFile>)
    ensures
        file_holds(*v, hint@) ==> r is Some,
        r matches Some(f) ==> file_holds(*v, f),
{
    match v {
        Bencode::Dict(e) => {
            let length = match get_int(e, &length_key()) {
                Some(n) => n,
                None => {
                    return None;
                },
            };
            if length < 0 {
                return None;
            }
            proof {
                if file_holds(*v, hint@) {
                    if let Some(pv) = field(e@, key_path()) {
                        lemma_holds_is_byte_list(pv, hint@.path.deep_view());
                    }
                }
            }
            let path = match find_key(e, &path_key()) {
                Some(i) => match read_byte_list(&e[i].1) {
                    Some(p) => p,
                    None => {
                        return None;
                    },
                },
                None => {
                    return None;
                },
            };
            if path.len() == 0 {
                return None;
            }
            let md5sum = get_bytes(e, &md5sum_key());
            match find_key(e, &md5sum_key()) {
                Some(_) => {
                    if md5sum.is_none() {
                        return None;
                    }
                },
                None => {},
            }
            Some(TorrentFile { path, length, md5sum })
        },
        _ => None,
    }
}

fn read_info(v: &Bencode, hint: Ghost<InfoDict>) -> (r: Option<InfoDict>)
    ensures
        info_holds(*v, hint@) ==> r is Some,
        r matches Some(d) ==> info_holds(*v, d),
{
    match v {
        Bencode::Dict(e) => {
            let name = match get_bytes(e, &name_key()) {
                Some(n) => n,
                None => {
                    return None;
                },
            };
            let piece_length = match get_int(e, &piece_length_key()) {
                Some(n) => n,
                None => {
                    return None;
                },
            };
            match get_bytes(e, &pieces_key()) {
                Some(p) => {
                    if p.len() % 20 != 0 {
                        return None;
                    }
                },
                None => {
                    return None;
                },
            }
            let files_at = find_key(e, &files_key());
            match find_key(e, &length_key()) {
                Some(_) => {
                    let n = match get_int(e, &length_key()) {
                        Some(n) => n,
                        None => {
                            return None;
                        },
                    };
                    if n < 0 || files_at.is_some() {
                        return None;
                    }
                    Some(InfoDict { name, piece_length, length: Some(n), files: None })
                },
                None => {
                    let fi = match files_at {
                        Some(fi) => fi,
                        None => {
                            return None;
                        },
                    };
                    match &e[fi].1 {
                        Bencode::List(items) => {
                            let ghost hok = info_holds(*v, hint@);
                            proof {
                                if hok {
                                    assert(field(e@, key_files()) == Some(Bencode::List(*items)));
                                    assert(hint@.length is None);
                                }
                            }
                            let mut fs: Vec<TorrentFile> = Vec::new();
                            let mut i: usize = 0;
                            while i < items.len()
                                invariant
                                    i <= items@.len(),
                                    fs@.len() == i,
                                    hok == info_holds(*v, hint@),
                                    hok ==> (hint@.files matches Some(hf) && hf@.len() == items@.len()
                                        && forall|j: int|
                                        0 <= j < hf@.len() ==> file_holds(#[trigger] items@[j], hf@[j])),
                                    forall|k: int|
                                        0 <= k < i ==> file_holds(#[trigger] items@[k], fs@[k]),
                                decreases items@.len() - i,
                            {
                                let ghost fh: TorrentFile = match hint@.files {
                                    Some(hf) => hf@[i as int],
                                    None => hint@.files.unwrap()@[i as int],
                                };
                                match read_file(&items[i], Ghost(fh)) {
                                    Some(f) => {
                                        fs.push(f);
                                    },
                                    None => {
                                        return None;
                                    },
                                }
                                i = i + 1;
                            }
                            Some(InfoDict { name, piece_length, length: None, files: Some(fs) })
                        },
                        _ => None,
                    }
                },
            }
        },
        _ => None,
    }
}


/// A `.torrent` metainfo: the announce section, the `info` dictionary kept as
/// it was read, and its typed reading.
pub struct Metainfo {
    pub announce: Option<Vec<u8>>,
    pub announce_list: Option<Vec<Vec<Vec<u8>>>>,
    pub info: Bencode,
    pub details: InfoDict,
}

/// What a metainfo holds as plain values: the announce URL, the tiers of the
/// announce list, and the exact byte image of the `info` dictionary.
pub struct MetainfoView {
    pub announce: Option<Seq<u8>>,
    pub announce_list: Option<Seq<Seq<Seq<u8>>>>,
    pub info: Seq<u8>,
}

impl View for Metainfo {
    type V = MetainfoView;

    open spec fn view(&self) -> MetainfoView {
        MetainfoView {
            announce: opt_bytes(self.announce),
            announce_list: opt_tiers(self.announce_list),
            info: encode_spec(self.info),
        }
    }
}

/// `b` is a `.torrent` file: the canonical encoding of a value, and a value so
/// encoded is a dictionary that a metainfo reads.
pub open spec fn is_torrent(b: Seq<u8>) -> bool {
    &&& exists|top: Bencode| encode_spec(top) == b && canonical(top)
    &&& forall|top: Bencode|
        encode_spec(top) == b && canonical(top) ==> exists|m: Metainfo| #[trigger] read_from(top, m)
}

/// `m` is the metainfo read from the top-level value `top`.
pub open spec fn read_from(top: Bencode, m: Metainfo) -> bool {
    match top {
        Bencode::Dict(e) => {
            &&& field(e@, key_info()) == Some(m.info)
            &&& info_holds(m.info, m.details)
            &&& opt_bytes(m.announce) == bytes_field(e@, key_announce())
            &&& field(e@, key_announce()) is Some ==> m.announce is Some
            &&& match field(e@, key_announce_list()) {
                None => m.announce_list is None,
                Some(v) => m.announce_list matches Some(t) && tier_list_holds(v, t.deep_view()),
            }
        },
        _ => false,
    }
}

/// The SHA-1 digest of a byte sequence.
pub uninterp spec fn sha1_of(data: Seq<u8>) -> Seq<u8>;

/// Relies on `sha1::Sha1` through `digest::Digest::digest`: the SHA-1 digest
/// of the input, which is 20 bytes long.
#[verifier::external_body]
fn sha1_digest(data: &[u8]) -> (r: Vec<u8>)
    ensures
        r@ == sha1_of(data@),
        r@.len() == 20,
{
    <sha1::Sha1 as sha1::Digest>::digest(data).to_vec()
}

/// The lowercase hexadecimal digit of a value below 16.
pub open spec fn hex_digit(n: u8) -> u8 {
    if n < 10 {
        (48 + n) as u8
    } else {
        (87 + n) as u8
    }
}

/// Lowercase hexadecimal text of a byte sequence, two digits per byte.
pub open spec fn hex_spec(s: Seq<u8>) -> Seq<u8>
    decreases s.len(),
{
    if s.len() == 0 {
        Seq::empty()
    } else {
        hex_spec(s.drop_last()) + seq![hex_digit(s.last() / 16), hex_digit(s.last() % 16)]
    }
}

/// Lowercase hexadecimal text of `b`.
pub fn to_hex(b: &[u8]) -> (r: Vec<u8>)
    ensures
        r@ == hex_spec(b@),
{
    let mut r: Vec<u8> = Vec::new();
    let mut i: usize = 0;
    while i < b.len()
        invariant
            i <= b@.len(),
            r@ == hex_spec(b@.subrange(0, i as int)),
        decreases b@.len() - i,
    {
        let hi = b[i] / 16;
        let lo = b[i] % 16;
        r.push(if hi < 10 { 48 + hi } else { 87 + hi });
        r.push(if lo < 10 { 48 + lo } else { 87 + lo });
        assert(b@.subrange(0, i + 1).drop_last() =~= b@.subrange(0, i as int));
        i = i + 1;
        assert(r@ =~= hex_spec(b@.subrange(0, i as int)));
    }
    assert(b@.subrange(0, i as int) =~= b@);
    r
}

/// The info hash of a metainfo: the SHA-1 digest of its `info` image.
pub open spec fn info_hash_of(v: MetainfoView) -> Seq<u8> {
    sha1_of(v.info)
}

/// The announce section after the site's configuration is applied.
pub open spec fn site_config_view(v: MetainfoView, url: Seq<u8>, keep_tiers: bool) -> MetainfoView {
    MetainfoView {
        announce: Some(url),
        announce_list: if keep_tiers {
            match v.announce_list {
                Some(t) => Some(seq![seq![url]] + t),
                None => Some(seq![seq![url]]),
            }
        } else {
            None
        },
        info: v.info,
    }
}

/// The announce section stamped with a user's own announce URL.
pub open spec fn personalize_view(v: MetainfoView, url: Seq<u8>) -> MetainfoView {
    MetainfoView {
        announce: Some(url),
        announce_list: match v.announce_list {
            Some(t) => Some(seq![seq![url]] + t),
            None => None,
        },
        info: v.info,
    }
}

fn prepend_tier(list: &mut Vec<Vec<Vec<u8>>>, url: &[u8])
    ensures
        final(list).deep_view() == seq![seq![url@]] + old(list).deep_view(),
{
    let mut tier: Vec<Vec<u8>> = Vec::new();
    let u = copy_bytes(url);
    proof {
        lemma_bytes_deep_view(u);
    }
    tier.push(u);
    assert(tier.deep_view() =~= seq![url@]);
    list.insert(0, tier);
    assert(final(list).deep_view() =~= seq![seq![url@]] + old(list).deep_view());
}

impl Metainfo {
    /// Reads a metainfo out of a decoded top-level dictionary.
    pub fn from_bencode(top: Bencode) -> (r: Result<Metainfo, ServiceError>)
        ensures
            r matches Ok(m) ==> read_from(top, m),
            r matches Err(e) ==> e == ServiceError::InvalidTorrentFile,
            (exists|m: Metainfo| read_from(top, m)) ==> r is Ok,
    {
        let ghost hm: Metainfo = choose|m: Metainfo| read_from(top, m);
        match top {
            Bencode::Dict(mut e) => {
                let ghost e0 = e@;
                let info_at = match find_key(&e, &info_key()) {
                    Some(i) => i,
                    None => {
                        return Err(ServiceError::InvalidTorrentFile);
                    },
                };
                let details = match read_info(&e[info_at].1, Ghost(hm.details)) {
                    Some(d) => d,
                    None => {
                        return Err(ServiceError::InvalidTorrentFile);
                    },
                };
                let announce = get_bytes(&e, &announce_key());
                if announce.is_none() && find_key(&e, &announce_key()).is_some() {
                    return Err(ServiceError::InvalidTorrentFile);
                }
                let announce_list = match find_key(&e, &announce_list_key()) {
                    None => None,
                    Some(i) => match read_tier_list(
                        &e[i].1,
                        Ghost(
                            match hm.announce_list {
                                Some(t) => t.deep_view(),
                                None => Seq::empty(),
                            },
                        ),
                    ) {
                        Some(t) => Some(t),
                        None => {
                            return Err(ServiceError::InvalidTorrentFile);
                        },
                    },
                };
                let entry = e.remove(info_at);
                assert(entry == e0[info_at as int]);
                Ok(Metainfo { announce, announce_list, info: entry.1, details })
            },
            _ => Err(ServiceError::InvalidTorrentFile),
        }
    }

    /// Decodes a `.torrent` file. What is accepted is canonical bencode whose
    /// top-level dictionary the result reads; the `info` image is kept exactly.
    pub fn from_bytes(b: &[u8]) -> (r: Result<Metainfo, ServiceError>)
        ensures
            r matches Ok(m) ==> exists|top: Bencode|
                encode_spec(top) == b@ && canonical(top) && #[trigger] read_from(top, m),
            r matches Err(e) ==> e == ServiceError::InvalidTorrentFile,
            is_torrent(b@) ==> r is Ok,
    {
        match decode(b) {
            None => Err(ServiceError::InvalidTorrentFile),
            Some(top) => {
                let ghost t = top;
                proof {
                    if is_torrent(b@) {
                        assert(exists|m: Metainfo| #[trigger] read_from(t, m));
                    }
                }
                let r = Metainfo::from_bencode(top);
                if let Ok(m) = &r {
                    assert(read_from(t, *m));
                }
                r
            },
        }
    }

    /// The 20-byte info hash: the SHA-1 digest of the `info` image.
    pub fn info_hash(&self) -> (r: Vec<u8>)
        ensures
            r@ == info_hash_of(self@),
            r@.len() == 20,
    {
        let image = encode(&self.info);
        sha1_digest(image.as_slice())
    }

    /// The info hash as 40 lowercase hexadecimal digits.
    pub fn info_hash_hex(&self) -> (r: Vec<u8>)
        ensures
            r@ == hex_spec(info_hash_of(self@)),
    {
        let h = self.info_hash();
        to_hex(h.as_slice())
    }

    /// Makes the site's tracker authoritative: it becomes the announce URL, and
    /// the announce list is dropped, or kept behind a first tier holding only the
    /// site tracker when `keep_tiers` is set. The `info` dictionary is untouched.
    pub fn apply_site_config(self, url: &[u8], keep_tiers: bool) -> (r: Metainfo)
        ensures
            r@ == site_config_view(self@, url@, keep_tiers),
            r.info == self.info,
            r.details == self.details,
    {
        let Metainfo { announce: _, announce_list, info, details } = self;
        let new_list = if keep_tiers {
            let mut list = match announce_list {
                Some(l) => l,
                None => {
                    let l: Vec<Vec<Vec<u8>>> = Vec::new();
                    assert(l.deep_view() =~= Seq::<Seq<Seq<u8>>>::empty());
                    assert(seq![seq![url@]] + l.deep_view() =~= seq![seq![url@]]);
                    l
                },
            };
            prepend_tier(&mut list, url);
            Some(list)
        } else {
            None
        };
        Metainfo { announce: Some(copy_bytes(url)), announce_list: new_list, info, details }
    }

    /// Stamps a user's own announce URL: it becomes the announce URL and, where
    /// there is an announce list, a new first tier. The `info` dictionary is untouched.
    pub fn personalize(self, url: &[u8]) -> (r: Metainfo)
        ensures
            r@ == personalize_view(self@, url@),
            r.info == self.info,
            r.details == self.details,
    {
        let Metainfo { announce: _, announce_list, info, details } = self;
        let new_list = match announce_list {
            Some(l) => {
                let mut list = l;
                prepend_tier(&mut list, url);
                Some(list)
            },
            None => None,
        };
        Metainfo { announce: Some(copy_bytes(url)), announce_list: new_list, info, details }
    }
}

/// Rewriting the announce section, for the site or for one user, never changes
/// the info hash.
pub proof fn lemma_announce_neutrality(v: MetainfoView, url: Seq<u8>, keep_tiers: bool)
    ensures
        info_hash_of(site_config_view(v, url, keep_tiers)) == info_hash_of(v),
        info_hash_of(personalize_view(v, url)) == info_hash_of(v),
{
}


/// A byte string's bencoding: its length, a colon, the bytes.
pub open spec fn bstr(s: Seq<u8>) -> Seq<u8> {
    dec_nat(s.len()) + seq![58u8] + s
}

pub open spec fn urls_image(s: Seq<Seq<u8>>) -> Seq<u8>
    decreases s.len(),
{
    if s.len() == 0 {
        Seq::empty()
    } else {
        urls_image(s.drop_last()) + bstr(s.last())
    }
}

pub open spec fn tiers_image(t: Seq<Seq<Seq<u8>>>) -> Seq<u8>
    decreases t.len(),
{
    if t.len() == 0 {
        Seq::empty()
    } else {
        tiers_image(t.drop_last()) + seq![108u8] + urls_image(t.last()) + seq![101u8]
    }
}

/// The canonical bencoding of a metainfo: a dictionary with its keys in
/// ascending order (`announce`, `announce-list`, `info`), the `info` image verbatim.
pub open spec fn metainfo_image(v: MetainfoView) -> Seq<u8> {
    seq![100u8] + match v.announce {
        Some(a) => bstr(key_announce()) + bstr(a),
        None => Seq::empty(),
    } + match v.announce_list {
        Some(t) => bstr(key_announce_list()) + seq![108u8] + tiers_image(t) + seq![101u8],
        None => Seq::empty(),
    } + bstr(key_info()) + v.info + seq![101u8]
}

fn push_bstr(s: &[u8], out: &mut Vec<u8>)
    ensures
        final(out)@ == old(out)@ + bstr(s@),
{
    push_nat(s.len() as u64, out);
    out.push(58u8);
    let mut i: usize = 0;
    let ghost mid = out@;
    while i < s.len()
        invariant
            i <= s@.len(),
            out@ == mid + s@.subrange(0, i as int),
        decreases s@.len() - i,
    {
        out.push(s[i]);
        i = i + 1;
        assert(out@ =~= mid + s@.subrange(0, i as int));
    }
    assert(s@.subrange(0, i as int) =~= s@);
    assert(final(out)@ =~= old(out)@ + bstr(s@));
}

fn push_tiers(t: &Vec<Vec<Vec<u8>>>, out: &mut Vec<u8>)
    ensures
        final(out)@ == old(out)@ + tiers_image(t.deep_view()),
{
    let mut i: usize = 0;
    while i < t.len()
        invariant
            i <= t@.len(),
            out@ == old(out)@ + tiers_image(t.deep_view().subrange(0, i as int)),
        decreases t@.len() - i,
    {
        let ghost before = out@;
        out.push(108u8);
        let tier = &t[i];
        let mut j: usize = 0;
        let ghost mid = out@;
        while j < tier.len()
            invariant
                j <= tier@.len(),
                out@ == mid + urls_image(tier.deep_view().subrange(0, j as int)),
            decreases tier@.len() - j,
        {
            push_bstr(tier[j].as_slice(), out);
            proof {
                lemma_bytes_deep_view(tier@[j as int]);
                assert(tier.deep_view().subrange(0, j + 1).drop_last() =~= tier.deep_view().subrange(0, j as int));
            }
            j = j + 1;
        }
        assert(tier.deep_view().subrange(0, j as int) =~= tier.deep_view());
        out.push(101u8);
        assert(t.deep_view().subrange(0, i + 1).drop_last() =~= t.deep_view().subrange(0, i as int));
        i = i + 1;
        assert(out@ =~= old(out)@ + tiers_image(t.deep_view().subrange(0, i as int)));
    }
    assert(t.deep_view().subrange(0, i as int) =~= t.deep_view());
}

/// The sum of the lengths of a torrent's files.
pub open spec fn total_length(fs: Seq<TorrentFile>) -> int
    decreases fs.len(),
{
    if fs.len() == 0 {
        0
    } else {
        total_length(fs.drop_last()) + fs.last().length
    }
}

/// The size of a torrent: its single length, or the sum of its files' lengths.
pub open spec fn size_of(d: InfoDict) -> int {
    match d.length {
        Some(n) => n as int,
        None => match d.files {
            Some(fs) => total_length(fs@),
            None => 0,
        },
    }
}

/// The first URL of each non-empty tier, in order.
pub open spec fn first_urls(t: Seq<Seq<Seq<u8>>>) -> Seq<Seq<u8>>
    decreases t.len(),
{
    if t.len() == 0 {
        Seq::empty()
    } else if t.last().len() == 0 {
        first_urls(t.drop_last())
    } else {
        first_urls(t.drop_last()).push(t.last()[0])
    }
}

impl Metainfo {
    /// The canonical bencoding of this metainfo.
    pub fn to_bytes(&self) -> (r: Vec<u8>)
        ensures
            r@ == metainfo_image(self@),
    {
        let mut out: Vec<u8> = Vec::new();
        out.push(100u8);
        match &self.announce {
            Some(a) => {
                push_bstr(&announce_key(), &mut out);
                push_bstr(a.as_slice(), &mut out);
            },
            None => {},
        }
        match &self.announce_list {
            Some(t) => {
                push_bstr(&announce_list_key(), &mut out);
                out.push(108u8);
                push_tiers(t, &mut out);
                out.push(101u8);
            },
            None => {},
        }
        push_bstr(&info_key(), &mut out);
        encode_into(&self.info, &mut out);
        out.push(101u8);
        assert(out@ =~= metainfo_image(self@));
        out
    }

    /// The total size in bytes, saturating at `i64::MAX`.
    pub fn file_size(&self) -> (r: i64)
        requires
            info_holds(self.info, self.details),
        ensures
            r as int == if size_of(self.details) > i64::MAX { i64::MAX as int } else { size_of(self.details) },
    {
        match self.details.length {
            Some(n) => n,
            None => match &self.details.files {
                Some(fs) => {
                    proof {
                        assert forall|k: int| 0 <= k < fs@.len() implies (#[trigger] fs@[k]).length
                            >= 0 by {
                            if let Bencode::Dict(e) = self.info {
                                if let Some(Bencode::List(items)) = field(e@, key_files()) {
                                    assert(file_holds(items@[k], fs@[k]));
                                }
                            }
                        }
                    }
                    let mut total: i64 = 0;
                    let mut i: usize = 0;
                    while i < fs.len()
                        invariant
                            i <= fs@.len(),
                            forall|k: int| 0 <= k < fs@.len() ==> (#[trigger] fs@[k]).length >= 0,
                            total as int == if total_length(fs@.subrange(0, i as int)) > i64::MAX {
                                i64::MAX as int
                            } else {
                                total_length(fs@.subrange(0, i as int))
                            },
                            total_length(fs@.subrange(0, i as int)) >= 0,
                        decreases fs@.len() - i,
                    {
                        assert(fs@.subrange(0, i + 1).drop_last() =~= fs@.subrange(0, i as int));
                        let len = fs[i].length;
                        total = if total > i64::MAX - len {
                            i64::MAX
                        } else {
                            total + len
                        };
                        i = i + 1;
                    }
                    assert(fs@.subrange(0, i as int) =~= fs@);
                    total
                },
                None => 0,
            },
        }
    }

    /// The trackers named by the announce list: the first URL of each tier.
    pub fn trackers(&self) -> (r: Vec<Vec<u8>>)
        ensures
            r.deep_view() == match self@.announce_list {
                Some(t) => first_urls(t),
                None => Seq::empty(),
            },
    {
        let mut r: Vec<Vec<u8>> = Vec::new();
        match &self.announce_list {
            Some(t) => {
                let mut i: usize = 0;
                while i < t.len()
                    invariant
                        i <= t@.len(),
                        r.deep_view() == first_urls(t.deep_view().subrange(0, i as int)),
                    decreases t@.len() - i,
                {
                    assert(t.deep_view().subrange(0, i + 1).drop_last() =~= t.deep_view().subrange(0, i as int));
                    if t[i].len() > 0 {
                        let u = copy_bytes(t[i][0].as_slice());
                        proof {
                            lemma_bytes_deep_view(u);
                            lemma_bytes_deep_view(t@[i as int]@[0]);
                        }
                        let ghost old_r = r.deep_view();
                        r.push(u);
                        assert(r.deep_view() =~= old_r.push(u@));
                    }
                    i = i + 1;
                }
                assert(t.deep_view().subrange(0, i as int) =~= t.deep_view());
            },
            None => {
                assert(r.deep_view() =~= Seq::<Seq<u8>>::empty());
            },
        }
        r
    }
}

/// Encoding keeps the `info` dictionary's byte image verbatim, just before the
/// closing delimiter, so the info hash read back from an encoded metainfo is
/// computed over the same bytes.
pub proof fn lemma_info_image_kept(v: MetainfoView)
    ensures
        metainfo_image(v).subrange(
            metainfo_image(v).len() - 1 - v.info.len(),
            metainfo_image(v).len() - 1,
        ) == v.info,
{
    let img = metainfo_image(v);
    assert(img.subrange(img.len() - 1 - v.info.len(), img.len() - 1) =~= v.info);
}

} // verus!
