use torrent_core::access::{authorize_delete, authorize_download, authorize_update, row_outcome, User};
use torrent_core::bencode::{decode, encode, Bencode};
use torrent_core::error::ServiceError;
use torrent_core::intake::{CreateTorrent, Intake, PartKind};
use torrent_core::listing::{get_torrents, split_csv, DisplayInfo, SortOrder};
use torrent_core::magnet::{magnet_link, response_trackers};
use torrent_core::metainfo::{to_hex, Metainfo};
use torrent_core::torrent::{
    download_torrent, get_torrent, parse_torrent_id, stored_file_name, update_torrent,
    upload_torrent, TorrentListing, TorrentUpdate,
};

const BUNNY_INFO: &[u8] =
    b"d6:lengthi12345e4:name9:bunny.mkv12:piece lengthi16384e6:pieces20:AAAAAAAAAAAAAAAAAAAAe";
const BUNNY_HASH: &str = "f03f7d7e425a0b238e36b4300121e9db9b139905";

fn bunny_torrent(announce: &[u8], with_list: bool) -> Vec<u8> {
    let mut b = b"d".to_vec();
    b.extend_from_slice(format!("8:announce{}:", announce.len()).as_bytes());
    b.extend_from_slice(announce);
    if with_list {
        b.extend_from_slice(b"13:announce-listll18:udp://other.tr/annee");
    }
    b.extend_from_slice(b"4:info");
    b.extend_from_slice(BUNNY_INFO);
    b.extend_from_slice(b"e");
    b
}

fn bunny_request() -> Intake {
    let mut intake = Intake::new(1 << 20);
    let kind = intake.begin_part(b"title", None).unwrap();
    intake.text(kind, b"Big Buck Bunny");
    let kind = intake.begin_part(b"category", None).unwrap();
    intake.text(kind, b"movie");
    let kind = intake.begin_part(b"torrent", Some(b"application/x-bittorrent")).unwrap();
    assert_eq!(kind, PartKind::Torrent);
    let bytes = bunny_torrent(b"http://a.tr/ann", false);
    let (first, rest) = bytes.split_at(10);
    intake.torrent_chunk(first).unwrap();
    intake.torrent_chunk(rest).unwrap();
    intake
}

fn listing(id: i64, title: &[u8]) -> TorrentListing {
    TorrentListing {
        torrent_id: id,
        uploader: b"alice".to_vec(),
        info_hash: BUNNY_HASH.as_bytes().to_vec(),
        title: title.to_vec(),
        category_id: 1,
        description: Vec::new(),
        upload_date: 0,
        file_size: 12345,
        seeders: 1,
        leechers: 2,
    }
}

fn params(sort: Option<&[u8]>, categories: Option<&[u8]>) -> DisplayInfo {
    DisplayInfo {
        page_size: None,
        page: None,
        sort: sort.map(|s| s.to_vec()),
        categories: categories.map(|c| c.to_vec()),
        search: None,
    }
}

fn known() -> Vec<Vec<u8>> {
    vec![b"movie".to_vec(), b"music".to_vec(), b"app".to_vec()]
}

#[test]
fn upload_round_trip_hash() {
    let req = bunny_request().finish().unwrap();
    assert_eq!(req.fields.title, b"Big Buck Bunny".to_vec());
    assert_eq!(req.torrent.details.name, b"bunny.mkv".to_vec());
    assert_eq!(req.torrent.details.length, Some(12345));
    assert_eq!(req.torrent.details.piece_length, 16384);
    assert_eq!(req.torrent.info_hash_hex(), BUNNY_HASH.as_bytes().to_vec());
    let rec = upload_torrent(req.torrent, b"http://site.tr/announce", false);
    assert_eq!(rec.info_hash, BUNNY_HASH.as_bytes().to_vec());
    assert_eq!(rec.file_size, 12345);
    assert_eq!(rec.bytes, bunny_torrent(b"http://site.tr/announce", false));
}

#[test]
fn hash_stable_through_encode_and_decode() {
    let m = Metainfo::from_bytes(&bunny_torrent(b"http://a.tr/ann", true)).unwrap();
    let again = Metainfo::from_bytes(&m.to_bytes()).unwrap();
    assert_eq!(again.info_hash(), m.info_hash());
    assert_eq!(to_hex(&again.info_hash()), BUNNY_HASH.as_bytes().to_vec());
}

#[test]
fn announce_rewrites_keep_hash() {
    let m = Metainfo::from_bytes(&bunny_torrent(b"http://a.tr/ann", true)).unwrap();
    let h = m.info_hash();
    let s = m.apply_site_config(b"http://site.tr/announce", true);
    assert_eq!(s.info_hash(), h);
    assert_eq!(s.announce, Some(b"http://site.tr/announce".to_vec()));
    let list = s.announce_list.clone().unwrap();
    assert_eq!(list.len(), 2);
    assert_eq!(list[0], vec![b"http://site.tr/announce".to_vec()]);
    let p = s.personalize(b"http://site.tr/u/key");
    assert_eq!(p.info_hash(), h);
    assert_eq!(p.announce_list.unwrap()[0], vec![b"http://site.tr/u/key".to_vec()]);
}

#[test]
fn site_config_drops_tiers_when_not_kept() {
    let m = Metainfo::from_bytes(&bunny_torrent(b"http://a.tr/ann", true)).unwrap();
    let s = m.apply_site_config(b"http://site.tr/announce", false);
    assert!(s.announce_list.is_none());
}

#[test]
fn canonical_bytes_reencode_identically() {
    let b = bunny_torrent(b"http://a.tr/ann", true);
    let v = decode(&b).unwrap();
    assert_eq!(encode(&v), b);
    let nested = b"d1:ali-3ei0el1:xee1:bi7ee".to_vec();
    assert_eq!(encode(&decode(&nested).unwrap()), nested);
}

#[test]
fn non_canonical_input_is_refused() {
    assert!(decode(b"i03e").is_none());
    assert!(decode(b"i-0e").is_none());
    assert!(decode(b"ie").is_none());
    assert!(decode(b"d1:bi1e1:ai2ee").is_none());
    assert!(decode(b"d1:ai1e1:ai2ee").is_none());
    assert!(decode(b"4:abc").is_none());
    assert!(decode(b"i1ei2e").is_none());
    assert!(decode(b"").is_none());
}

#[test]
fn encode_values() {
    assert_eq!(encode(&Bencode::Int(-42)), b"i-42e".to_vec());
    assert_eq!(encode(&Bencode::Int(i64::MIN)), b"i-9223372036854775808e".to_vec());
    assert_eq!(encode(&Bencode::Bytes(b"spam".to_vec())), b"4:spam".to_vec());
    let d = Bencode::Dict(vec![(b"k".to_vec(), Bencode::List(vec![Bencode::Int(0)]))]);
    assert_eq!(encode(&d), b"d1:kli0eee".to_vec());
}

#[test]
fn invalid_torrents_are_refused() {
    let bad_pieces = b"d4:infod6:lengthi1e4:name1:x12:piece lengthi1e6:pieces3:abcee";
    assert_eq!(Metainfo::from_bytes(bad_pieces).err(), Some(ServiceError::InvalidTorrentFile));
    let no_info = b"d8:announce3:abce";
    assert_eq!(Metainfo::from_bytes(no_info).err(), Some(ServiceError::InvalidTorrentFile));
    let both = b"d4:infod5:filesle6:lengthi1e4:name1:x12:piece lengthi1e6:pieces0:ee";
    assert_eq!(Metainfo::from_bytes(both).err(), Some(ServiceError::InvalidTorrentFile));
}

#[test]
fn multi_file_size_and_files() {
    let b = b"d4:infod5:filesld6:lengthi10e4:pathl1:a1:bee\
d6:lengthi32e4:pathl1:ceee4:name3:dir12:piece lengthi4e6:pieces0:ee";
    let m = Metainfo::from_bytes(b).unwrap();
    assert_eq!(m.file_size(), 42);
    let resp = get_torrent(listing(3, b"dir"), Some(m), b"http://site.tr", None);
    let files = resp.files.unwrap();
    assert_eq!(files.len(), 2);
    assert_eq!(files[0].path, vec![b"a".to_vec(), b"b".to_vec()]);
    assert_eq!(files[1].length, 32);
}

#[test]
fn list_filter_and_name_order() {
    let q = get_torrents(&params(Some(b"name_ASC"), Some(b"movie,app")), &known());
    assert_eq!(q.categories, vec![b"movie".to_vec(), b"app".to_vec()]);
    let select = String::from_utf8(q.select).unwrap();
    assert_eq!(
        select,
        "SELECT tt.* FROM torrust_torrents tt INNER JOIN torrust_categories tc ON \
tt.category_id = tc.category_id AND tc.name IN (?, ?) WHERE title LIKE ? ORDER BY title ASC LIMIT ?, ?"
    );
    assert_eq!(q.search, b"%".to_vec());
    assert_eq!((q.offset, q.limit), (0, 30));
}

#[test]
fn injection_is_dropped() {
    let q = get_torrents(&params(None, Some(b"movie' OR 1=1--")), &known());
    assert!(q.categories.is_empty());
    let select = String::from_utf8(q.select).unwrap();
    assert!(select.contains("WHERE 0 = 1 AND title LIKE ?"));
    assert!(!select.contains("1=1"));
    assert!(!select.contains('\''));
    assert!(!select.contains("INNER JOIN"));
    assert!(select.contains("tc.name") == false);
}

#[test]
fn unknown_sort_is_newest_first() {
    assert_eq!(SortOrder::from_param(Some(b"bogus")), SortOrder::UploadedDesc);
    assert_eq!(SortOrder::from_param(None), SortOrder::UploadedDesc);
    assert_eq!(SortOrder::from_param(Some(b"size_DESC")), SortOrder::SizeDesc);
    assert_eq!(SortOrder::UploadedDesc.clause(), b"upload_date DESC".to_vec());
    assert_eq!(SortOrder::SeedersAsc.clause(), b"seeders ASC".to_vec());
}

#[test]
fn count_wraps_the_same_selection() {
    let q = get_torrents(&params(None, Some(b"music")), &known());
    let count = String::from_utf8(q.count).unwrap();
    let select = String::from_utf8(q.select).unwrap();
    let base = select.split(" ORDER BY ").next().unwrap().to_string();
    assert_eq!(count, format!("SELECT COUNT(torrent_id) as count FROM ({})", base));
}

#[test]
fn paging_and_search_values() {
    let p = DisplayInfo {
        page_size: Some(500),
        page: Some(3),
        sort: None,
        categories: None,
        search: Some(b"bunny".to_vec()),
    };
    let q = get_torrents(&p, &known());
    assert_eq!((q.offset, q.limit), (300, 100));
    assert_eq!(q.search, b"%bunny%".to_vec());
    let p2 = DisplayInfo { page_size: Some(-1), page: Some(-2), sort: None, categories: None, search: None };
    let q2 = get_torrents(&p2, &known());
    assert_eq!((q2.offset, q2.limit), (0, 30));
}

#[test]
fn csv_split() {
    assert_eq!(split_csv(b"a,,b"), vec![b"a".to_vec(), Vec::new(), b"b".to_vec()]);
    assert_eq!(split_csv(b""), vec![Vec::<u8>::new()]);
}

#[test]
fn authorization_matrix() {
    let alice = Some(User { username: b"alice".to_vec(), administrator: false });
    let bob = Some(User { username: b"bob".to_vec(), administrator: false });
    let admin = Some(User { username: b"root".to_vec(), administrator: true });
    assert_eq!(authorize_update(&bob, b"alice"), Err(ServiceError::Unauthorized));
    assert_eq!(authorize_update(&alice, b"alice"), Ok(()));
    assert_eq!(authorize_update(&admin, b"alice"), Ok(()));
    assert_eq!(authorize_update(&None, b"alice"), Err(ServiceError::Unauthorized));
    assert_eq!(authorize_delete(&alice), Err(ServiceError::Unauthorized));
    assert_eq!(authorize_delete(&admin), Ok(()));
    assert_eq!(authorize_download(&None), Err(ServiceError::Unauthorized));
    assert_eq!(authorize_download(&bob), Ok(()));
    assert_eq!(row_outcome(Some(0)), Err(ServiceError::TorrentNotFound));
    assert_eq!(row_outcome(None), Err(ServiceError::TorrentNotFound));
    assert_eq!(row_outcome(Some(1)), Ok(()));
}

#[test]
fn personalized_download() {
    let stored = bunny_torrent(b"http://site.tr/announce", true);
    let out = download_torrent(&stored, Some(b"http://site.tr/u/abc")).unwrap();
    let m = Metainfo::from_bytes(&out).unwrap();
    assert_eq!(m.announce, Some(b"http://site.tr/u/abc".to_vec()));
    assert_eq!(m.info_hash_hex(), BUNNY_HASH.as_bytes().to_vec());
    assert_eq!(download_torrent(b"garbage", Some(b"u")).err(), Some(ServiceError::InternalServerError));
    assert_eq!(download_torrent(&stored, None).err(), Some(ServiceError::Unauthorized));
    assert_eq!(download_torrent(b"garbage", None).err(), Some(ServiceError::Unauthorized));
}

#[test]
fn bad_file_type() {
    let intake = Intake::new(100);
    assert_eq!(intake.begin_part(b"torrent", Some(b"text/plain")), Err(ServiceError::InvalidFileType));
    assert_eq!(intake.begin_part(b"torrent", None), Err(ServiceError::InvalidFileType));
    assert_eq!(intake.begin_part(b"other", None), Ok(PartKind::Ignored));
}

#[test]
fn intake_limits_and_missing_fields() {
    let mut intake = Intake::new(4);
    assert_eq!(intake.torrent_chunk(b"abc"), Ok(()));
    assert_eq!(intake.torrent_chunk(b"de"), Err(ServiceError::InvalidTorrentFile));
    assert_eq!(intake.torrent, b"abc".to_vec());
    assert_eq!(intake.finish().err(), Some(ServiceError::BadRequest));
    let mut intake = Intake::new(100);
    intake.text(PartKind::Title, b"t");
    intake.text(PartKind::Category, b"c");
    intake.torrent_chunk(b"not bencode").unwrap();
    assert_eq!(intake.finish().err(), Some(ServiceError::InvalidTorrentFile));
}

#[test]
fn create_torrent_verify() {
    let ok = CreateTorrent { title: b"t".to_vec(), description: Vec::new(), category: b"c".to_vec() };
    assert_eq!(ok.verify(), Ok(()));
    let no_title = CreateTorrent { title: Vec::new(), description: Vec::new(), category: b"c".to_vec() };
    assert_eq!(no_title.verify(), Err(ServiceError::BadRequest));
    let no_cat = CreateTorrent { title: b"t".to_vec(), description: Vec::new(), category: Vec::new() };
    assert_eq!(no_cat.verify(), Err(ServiceError::BadRequest));
}

#[test]
fn magnet_and_trackers() {
    let trackers = response_trackers(b"http://site.tr/a", vec![b"udp://x.y:80".to_vec()]);
    assert_eq!(trackers.len(), 2);
    let link = magnet_link(b"abcd", b"Big Buck_Bunny~1.0", &trackers);
    assert_eq!(
        String::from_utf8(link).unwrap(),
        "magnet:?xt=urn:btih:abcd&dn=Big%20Buck_Bunny~1.0&tr=http%3A%2F%2Fsite.tr%2Fa&tr=udp%3A%2F%2Fx.y%3A80"
    );
}

#[test]
fn assembled_response() {
    let m = Metainfo::from_bytes(&bunny_torrent(b"http://a.tr/ann", true)).unwrap();
    let r = get_torrent(listing(5, b"bunny"), Some(m), b"http://site.tr", Some((7, 8)));
    assert_eq!(r.trackers, vec![b"http://site.tr".to_vec(), b"udp://other.tr/ann".to_vec()]);
    assert_eq!((r.listing.seeders, r.listing.leechers), (7, 8));
    let files = r.files.unwrap();
    assert_eq!(files[0].path, vec![b"bunny.mkv".to_vec()]);
    assert_eq!(files[0].length, 12345);
    let r2 = get_torrent(listing(5, b"bunny"), None, b"http://site.tr", None);
    assert!(r2.files.is_none());
    assert_eq!((r2.listing.seeders, r2.listing.leechers), (0, 0));
}

#[test]
fn torrent_ids() {
    assert_eq!(parse_torrent_id(b"5"), Ok(5));
    assert_eq!(parse_torrent_id(b"+12"), Ok(12));
    assert_eq!(parse_torrent_id(b"-3"), Ok(-3));
    assert_eq!(parse_torrent_id(b"9223372036854775807"), Ok(i64::MAX));
    assert_eq!(parse_torrent_id(b"-9223372036854775808"), Ok(i64::MIN));
    assert_eq!(parse_torrent_id(b"9223372036854775808"), Err(ServiceError::BadRequest));
    assert_eq!(parse_torrent_id(b"12a"), Err(ServiceError::BadRequest));
    assert_eq!(parse_torrent_id(b""), Err(ServiceError::BadRequest));
    assert_eq!(parse_torrent_id(b"-"), Err(ServiceError::BadRequest));
    assert_eq!(stored_file_name(42), b"42.torrent".to_vec());
}

#[test]
fn status_codes() {
    assert_eq!(ServiceError::BadRequest.status_code(), 400);
    assert_eq!(ServiceError::Unauthorized.status_code(), 401);
    assert_eq!(ServiceError::InvalidFileType.status_code(), 400);
    assert_eq!(ServiceError::TorrentNotFound.status_code(), 404);
    assert_eq!(ServiceError::TrackerUnavailable.status_code(), 502);
    assert_eq!(ServiceError::InternalServerError.status_code(), 500);
}

#[test]
fn update_sets_description() {
    let alice = Some(User { username: b"alice".to_vec(), administrator: false });
    let bob = Some(User { username: b"bob".to_vec(), administrator: false });
    let admin = Some(User { username: b"root".to_vec(), administrator: true });
    let upd = || TorrentUpdate { description: b"new".to_vec() };
    let l = update_torrent(&alice, listing(5, b"bunny"), upd(), Some(1)).unwrap();
    assert_eq!(l.description, b"new".to_vec());
    assert_eq!((l.seeders, l.leechers, l.file_size), (1, 2, 12345));
    assert_eq!(update_torrent(&alice, listing(5, b"bunny"), upd(), Some(0)).err(), Some(ServiceError::TorrentNotFound));
    assert_eq!(update_torrent(&bob, listing(5, b"bunny"), upd(), Some(1)).err(), Some(ServiceError::Unauthorized));
    let l = update_torrent(&admin, listing(5, b"bunny"), upd(), Some(1)).unwrap();
    assert_eq!(l.description, b"new".to_vec());
}
