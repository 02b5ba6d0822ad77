use vstd::prelude::*;
use crate::bencode::{dec_int, push_int, Bencode, canonical, encode_spec};
use crate::access::{authorize_update, may_update, row_outcome, User};
use crate::error::ServiceError;
use crate::magnet::{magnet_link, magnet_spec, response_trackers};
use crate::metainfo::{
    Metainfo, TorrentFile, copy_bytes, is_torrent, first_urls, hex_spec, info_hash_of, info_holds,
    lemma_bytes_deep_view, metainfo_image, personalize_view, read_from, site_config_view, size_of,
};

verus! {

/// The number of rows a listing's count query found.
pub struct TorrentCount {
    pub count: i32,
}

/// The body of an update: the new description.
pub struct TorrentUpdate {
    pub description: Vec<u8>,
}

/// The value of a run of decimal digits.
pub open spec fn digits_value(s: Seq<u8>) -> int
    decreases s.len(),
{
    if s.len() == 0 {
        0
    } else {
        digits_value(s.drop_last()) * 10 + (s.last() - 48)
    }
}

pub open spec fn all_digits(s: Seq<u8>) -> bool {
    forall|i: int| 0 <= i < s.len() ==> 48 <= #[trigger] s[i] <= 57
}

/// The integer that a path segment spells: an optional `+` or `-`, then at least one digit.
pub open spec fn id_text(s: Seq<u8>) -> Option<int> {
    if s.len() > 0 && (s[0] == 43u8 || s[0] == 45u8) {
        let d = s.drop_first();
        if d.len() > 0 && all_digits(d) {
            Some(if s[0] == 45u8 { -digits_value(d) } else { digits_value(d) })
        } else {
            None
        }
    } else if s.len() > 0 && all_digits(s) {
        Some(digits_value(s))
    } else {
        None
    }
}

proof fn lemma_digits_nonneg(s: Seq<u8>)
    requires
        all_digits(s),
    ensures
        digits_value(s) >= 0,
    decreases s.len(),
{
    if s.len() > 0 {
        lemma_digits_nonneg(s.drop_last());
    }
}

/// Reads a torrent id out of a request path: `BadRequest` unless it spells an
/// integer in the range of `i64`.
pub fn parse_torrent_id(s: &[u8]) -> (r: Result<i64, ServiceError>)
    ensures
        r is Ok <==> (id_text(s@) matches Some(n) && i64::MIN <= n <= i64::MAX),
        r matches Ok(n) ==> id_text(s@) == Some(n as int),
        r matches Err(e) ==> e == ServiceError::BadRequest,
{
    let neg = s.len() > 0 && s[0] == 45u8;
    let start: usize = if s.len() > 0 && (s[0] == 43u8 || s[0] == 45u8) { 1 } else { 0 };
    if start >= s.len() {
        return Err(ServiceError::BadRequest);
    }
    let ghost d = s@.subrange(start as int, s@.len() as int);
    if start == 1 {
        assert(d =~= s@.drop_first());
    } else {
        assert(d =~= s@);
    }
    let limit: u64 = if neg { 9223372036854775808u64 } else { 9223372036854775807u64 };
    let mut val: u64 = 0;
    let mut i: usize = start;
    let mut over = false;
    while i < s.len()
        invariant
            start <= i <= s@.len(),
            start < s@.len(),
            d == s@.subrange(start as int, s@.len() as int),
            (start == 1) == (s@[0] == 43u8 || s@[0] == 45u8),
            start == 0 ==> d == s@,
            start == 1 ==> d == s@.drop_first(),
            neg == (s@[0] == 45u8),
            limit == if neg { 9223372036854775808u64 } else { 9223372036854775807u64 },
            all_digits(s@.subrange(start as int, i as int)),
            !over ==> val as int == digits_value(s@.subrange(start as int, i as int)),
            !over ==> val <= limit,
            over ==> digits_value(s@.subrange(start as int, i as int)) > limit,
        decreases s@.len() - i,
    {
        let c = s[i];
        if c < 48 || c > 57 {
            assert(d[i - start] == c);
            return Err(ServiceError::BadRequest);
        }
        let ghost pre = s@.subrange(start as int, i as int);
        assert(s@.subrange(start as int, i + 1).drop_last() =~= pre);
        proof {
            lemma_digits_nonneg(pre);
        }
        if !over {
            if val > (limit - (c - 48) as u64) / 10 {
                over = true;
                assert(digits_value(pre) * 10 + (c - 48) > limit) by (nonlinear_arith)
                    requires
                        digits_value(pre) == val,
                        val > (limit - (c - 48)) / 10,
                        0 <= c - 48 <= 9,
                        limit >= 9,
                ;
            } else {
                assert(val * 10 + (c - 48) <= limit) by (nonlinear_arith)
                    requires
                        val <= (limit - (c - 48)) / 10,
                        0 <= c - 48 <= 9,
                        limit >= 9,
                ;
                val = val * 10 + (c - 48) as u64;
            }
        } else {
            assert(digits_value(pre) * 10 + (c - 48) > limit) by (nonlinear_arith)
                requires
                    digits_value(pre) > limit,
                    0 <= c - 48 <= 9,
            ;
        }
        i = i + 1;
        assert(all_digits(s@.subrange(start as int, i as int)));
    }
    assert(s@.subrange(start as int, i as int) =~= d);
    if over {
        return Err(ServiceError::BadRequest);
    }
    if neg {
        if val == 9223372036854775808u64 {
            Ok(i64::MIN)
        } else {
            Ok(-(val as i64))
        }
    } else {
        Ok(val as i64)
    }
}

/// The name a torrent's file is stored under: its id, then `.torrent`.
pub open spec fn stored_name(id: i64) -> Seq<u8> {
    dec_int(id as int) + seq![46u8, 116u8, 111u8, 114u8, 114u8, 101u8, 110u8, 116u8]
}

/// The file name of a stored torrent; only the id goes into it.
pub fn stored_file_name(id: i64) -> (r: Vec<u8>)
    ensures
        r@ == stored_name(id),
{
    let mut out: Vec<u8> = Vec::new();
    push_int(id, &mut out);
    out.push(46u8);
    out.push(116u8);
    out.push(111u8);
    out.push(114u8);
    out.push(114u8);
    out.push(101u8);
    out.push(110u8);
    out.push(116u8);
    assert(out@ =~= stored_name(id));
    out
}

/// The personalized copy of a stored torrent: the stored bytes decoded, stamped
/// with the user's announce URL, and encoded again. `personal_url` is the
/// requesting user's announce URL, absent for an anonymous request, which is
/// refused. A stored file that does not decode is the server's fault.
pub fn download_torrent(blob: &[u8], personal_url: Option<&[u8]>) -> (r: Result<
    Vec<u8>,
    ServiceError,
>)
    ensures
        r matches Ok(b) ==> personal_url matches Some(u) && exists|top: Bencode, m: Metainfo|
            encode_spec(top) == blob@ && canonical(top) && #[trigger] read_from(top, m) && b@
                == metainfo_image(personalize_view(m@, u@)),
        personal_url is None ==> r == Err::<Vec<u8>, ServiceError>(ServiceError::Unauthorized),
        personal_url is Some ==> (r matches Err(e) ==> e == ServiceError::InternalServerError),
        personal_url is Some && is_torrent(blob@) ==> r is Ok,
{
    let url = match personal_url {
        Some(u) => u,
        None => {
            return Err(ServiceError::Unauthorized);
        },
    };
    match Metainfo::from_bytes(blob) {
        Ok(m) => {
            let ghost m0 = m;
            let p = m.personalize(url);
            let b = p.to_bytes();
            assert(read_from(choose|top: Bencode| encode_spec(top) == blob@ && canonical(top) && #[trigger] read_from(top, m0), m0));
            Ok(b)
        },
        Err(_) => Err(ServiceError::InternalServerError),
    }
}

/// What an upload stores: the rewritten metainfo, its info hash in hex, its
/// size, and the bytes saved to disk.
pub struct UploadRecord {
    pub torrent: Metainfo,
    pub info_hash: Vec<u8>,
    pub file_size: i64,
    pub bytes: Vec<u8>,
}

/// Rewrites an uploaded torrent for the site's tracker and computes what is stored of it.
pub fn upload_torrent(torrent: Metainfo, tracker_url: &[u8], keep_tiers: bool) -> (r: UploadRecord)
    requires
        info_holds(torrent.info, torrent.details),
    ensures
        r.torrent@ == site_config_view(torrent@, tracker_url@, keep_tiers),
        r.info_hash@ == hex_spec(info_hash_of(torrent@)),
        r.file_size as int == if size_of(torrent.details) > i64::MAX {
            i64::MAX as int
        } else {
            size_of(torrent.details)
        },
        r.bytes@ == metainfo_image(r.torrent@),
{
    let t = torrent.apply_site_config(tracker_url, keep_tiers);
    let info_hash = t.info_hash_hex();
    let file_size = t.file_size();
    let bytes = t.to_bytes();
    UploadRecord { torrent: t, info_hash, file_size, bytes }
}

/// A stored torrent's row.
pub struct TorrentListing {
    pub torrent_id: i64,
    pub uploader: Vec<u8>,
    pub info_hash: Vec<u8>,
    pub title: Vec<u8>,
    pub category_id: i64,
    pub description: Vec<u8>,
    pub upload_date: i64,
    pub file_size: i64,
    pub seeders: i64,
    pub leechers: i64,
}

/// The details of one torrent as served.
pub struct TorrentResponse {
    pub listing: TorrentListing,
    pub files: Option<Vec<TorrentFile>>,
    pub trackers: Vec<Vec<u8>>,
    pub magnet_link: Vec<u8>,
}

fn copy_path(p: &Vec<Vec<u8>>) -> (r: Vec<Vec<u8>>)
    ensures
        r.deep_view() == p.deep_view(),
{
    let mut r: Vec<Vec<u8>> = Vec::new();
    let mut i: usize = 0;
    while i < p.len()
        invariant
            i <= p@.len(),
            r.deep_view() == p.deep_view().subrange(0, i as int),
        decreases p@.len() - i,
    {
        let c = copy_bytes(p[i].as_slice());
        proof {
            lemma_bytes_deep_view(c);
            lemma_bytes_deep_view(p@[i as int]);
        }
        let ghost before = r.deep_view();
        r.push(c);
        assert(r.deep_view() =~= before.push(c@));
        assert(p.deep_view().subrange(0, i + 1) =~= p.deep_view().subrange(0, i as int).push(p@[i as int]@));
        i = i + 1;
    }
    assert(p.deep_view().subrange(0, i as int) =~= p.deep_view());
    r
}

/// The plain contents of a file entry.
pub open spec fn file_view(f: TorrentFile) -> (Seq<Seq<u8>>, i64) {
    (f.path.deep_view(), f.length)
}

/// The files a metainfo describes; a single-file torrent is one file named after it.
pub open spec fn files_of(m: Metainfo) -> Seq<(Seq<Seq<u8>>, i64)> {
    match m.details.files {
        Some(fs) => fs@.map_values(|f: TorrentFile| file_view(f)),
        None => seq![(seq![m.details.name@], match m.details.length {
            Some(n) => n,
            None => 0,
        })],
    }
}

fn copy_file(f: &TorrentFile) -> (r: TorrentFile)
    ensures
        file_view(r) == file_view(*f),
{
    TorrentFile {
        path: copy_path(&f.path),
        length: f.length,
        md5sum: match &f.md5sum {
            Some(s) => Some(copy_bytes(s.as_slice())),
            None => None,
        },
    }
}

/// The files listed for a metainfo.
pub fn list_files(m: &Metainfo) -> (r: Vec<TorrentFile>)
    ensures
        r@.map_values(|f: TorrentFile| file_view(f)) == files_of(*m),
{
    match &m.details.files {
        Some(fs) => {
            let mut r: Vec<TorrentFile> = Vec::new();
            let mut i: usize = 0;
            while i < fs.len()
                invariant
                    i <= fs@.len(),
                    r@.map_values(|f: TorrentFile| file_view(f)) =~= fs@.subrange(0, i as int).map_values(
                        |f: TorrentFile| file_view(f),
                    ),
                decreases fs@.len() - i,
            {
                let x = copy_file(&fs[i]);
                let ghost old_r = r@;
                r.push(x);
                assert(r@ == old_r.push(x));
                assert(r@.map_values(|f: TorrentFile| file_view(f)) =~= old_r.map_values(
                    |f: TorrentFile| file_view(f),
                ).push(file_view(x)));
                assert(fs@.subrange(0, i + 1).map_values(|f: TorrentFile| file_view(f)) =~= fs@.subrange(
                    0,
                    i as int,
                ).map_values(|f: TorrentFile| file_view(f)).push(file_view(fs@[i as int])));
                i = i + 1;
            }
            assert(fs@.subrange(0, i as int) =~= fs@);
            r
        },
        None => {
            let name = copy_bytes(m.details.name.as_slice());
            let mut path: Vec<Vec<u8>> = Vec::new();
            proof {
                lemma_bytes_deep_view(name);
            }
            path.push(name);
            assert(path.deep_view() =~= seq![m.details.name@]);
            let length = match m.details.length {
                Some(n) => n,
                None => 0,
            };
            let mut r: Vec<TorrentFile> = Vec::new();
            r.push(TorrentFile { path, length, md5sum: None });
            assert(r@.map_values(|f: TorrentFile| file_view(f)) =~= files_of(*m));
            r
        },
    }
}

/// Assembles the details of a torrent: its row; the files and trackers of its
/// stored metainfo, when that could be read; `first_tracker` (the user's own
/// announce URL, or the site tracker) ahead of the others; the magnet link;
/// and the tracker's live counts, or zero counts when it did not answer.
pub fn get_torrent(
    listing: TorrentListing,
    stored: Option<Metainfo>,
    first_tracker: &[u8],
    stats: Option<(i64, i64)>,
) -> (r: TorrentResponse)
    ensures
        r.trackers.deep_view() == seq![first_tracker@] + match stored {
            Some(m) => match m@.announce_list {
                Some(t) => first_urls(t),
                None => Seq::empty(),
            },
            None => Seq::empty(),
        },
        match stored {
            Some(m) => r.files matches Some(fs) && fs@.map_values(|f: TorrentFile| file_view(f))
                == files_of(m),
            None => r.files is None,
        },
        r.magnet_link@ == magnet_spec(listing.info_hash@, listing.title@, r.trackers.deep_view()),
        r.listing.torrent_id == listing.torrent_id,
        r.listing.info_hash@ == listing.info_hash@,
        r.listing.title@ == listing.title@,
        r.listing.seeders == match stats {
            Some((s, _)) => s,
            None => 0,
        },
        r.listing.leechers == match stats {
            Some((_, l)) => l,
            None => 0,
        },
{
    let (files, from_file) = match &stored {
        Some(m) => (Some(list_files(m)), m.trackers()),
        None => {
            let v: Vec<Vec<u8>> = Vec::new();
            assert(v.deep_view() =~= Seq::<Seq<u8>>::empty());
            (None, v)
        },
    };
    let trackers = response_trackers(first_tracker, from_file);
    let magnet = magnet_link(listing.info_hash.as_slice(), listing.title.as_slice(), &trackers);
    let mut listing = listing;
    match stats {
        Some((s, l)) => {
            listing.seeders = s;
            listing.leechers = l;
        },
        None => {
            listing.seeders = 0;
            listing.leechers = 0;
        },
    }
    TorrentResponse { listing, files, trackers, magnet_link: magnet }
}

/// An update of a torrent's description by `user`. Only the uploader or an
/// administrator may change it (`Unauthorized` otherwise); `affected` is the number
/// of rows the update statement changed (none when it failed), and a statement that
/// changed no row means the torrent does not exist. Only the description changes.
pub fn update_torrent(
    user: &Option<User>,
    listing: TorrentListing,
    update: TorrentUpdate,
    affected: Option<u64>,
) -> (r: Result<TorrentListing, ServiceError>)
    ensures
        !may_update(*user, listing.uploader@) ==> r == Err::<TorrentListing, ServiceError>(
            ServiceError::Unauthorized,
        ),
        may_update(*user, listing.uploader@) ==> (r is Ok <==> (affected matches Some(n) && n > 0)),
        may_update(*user, listing.uploader@) ==> (r matches Err(e) ==> e
            == ServiceError::TorrentNotFound),
        r matches Ok(l) ==> {
            &&& l.description@ == update.description@
            &&& l.torrent_id == listing.torrent_id
            &&& l.uploader@ == listing.uploader@
            &&& l.info_hash@ == listing.info_hash@
            &&& l.title@ == listing.title@
            &&& l.category_id == listing.category_id
            &&& l.upload_date == listing.upload_date
            &&& l.file_size == listing.file_size
            &&& l.seeders == listing.seeders
            &&& l.leechers == listing.leechers
        },
{
    match authorize_update(user, listing.uploader.as_slice()) {
        Ok(()) => {},
        Err(e) => {
            return Err(e);
        },
    }
    match row_outcome(affected) {
        Ok(()) => {
            let mut l = listing;
            l.description = update.description;
            Ok(l)
        },
        Err(e) => Err(e),
    }
}

} // verus!
