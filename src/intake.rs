use vstd::prelude::*;
use crate::bencode::{Bencode, canonical, encode_spec};
use crate::error::ServiceError;
use crate::metainfo::{Metainfo, bytes_eq, copy_bytes, is_torrent, read_from};

verus! {

pub open spec fn text_title() -> Seq<u8> {
    seq![116u8, 105u8, 116u8, 108u8, 101u8]
}

fn lit_title() -> (r: [u8; 5])
    ensures
        r@ == text_title(),
{
    let r: [u8; 5] = [116u8, 105u8, 116u8, 108u8, 101u8];
    assert(r@ =~= text_title());
    r
}

pub open spec fn text_description() -> Seq<u8> {
    seq![100u8, 101u8, 115u8, 99u8, 114u8, 105u8, 112u8, 116u8, 105u8, 111u8, 110u8]
}

fn lit_description() -> (r: [u8; 11])
    ensures
        r@ == text_description(),
{
    let r: [u8; 11] = [100u8, 101u8, 115u8, 99u8, 114u8, 105u8, 112u8, 116u8, 105u8, 111u8, 110u8];
    assert(r@ =~= text_description());
    r
}

pub open spec fn text_category() -> Seq<u8> {
    seq![99u8, 97u8, 116u8, 101u8, 103u8, 111u8, 114u8, 121u8]
}

fn lit_category() -> (r: [u8; 8])
    ensures
        r@ == text_category(),
{
    let r: [u8; 8] = [99u8, 97u8, 116u8, 101u8, 103u8, 111u8, 114u8, 121u8];
    assert(r@ =~= text_category());
    r
}

pub open spec fn text_torrent() -> Seq<u8> {
    seq![116u8, 111u8, 114u8, 114u8, 101u8, 110u8, 116u8]
}

fn lit_torrent() -> (r: [u8; 7])
    ensures
        r@ == text_torrent(),
{
    let r: [u8; 7] = [116u8, 111u8, 114u8, 114u8, 101u8, 110u8, 116u8];
    assert(r@ =~= text_torrent());
    r
}

pub open spec fn text_bittorrent() -> Seq<u8> {
    seq![97u8, 112u8, 112u8, 108u8, 105u8, 99u8, 97u8, 116u8, 105u8, 111u8, 110u8, 47u8, 120u8, 45u8, 98u8, 105u8, 116u8, 116u8, 111u8, 114u8, 114u8, 101u8, 110u8, 116u8]
}

fn lit_bittorrent() -> (r: [u8; 24])
    ensures
        r@ == text_bittorrent(),
{
    let r: [u8; 24] = [97u8, 112u8, 112u8, 108u8, 105u8, 99u8, 97u8, 116u8, 105u8, 111u8, 110u8, 47u8, 120u8, 45u8, 98u8, 105u8, 116u8, 116u8, 111u8, 114u8, 114u8, 101u8, 110u8, 116u8];
    assert(r@ =~= text_bittorrent());
    r
}


/// The free-form fields of an upload.
pub struct CreateTorrent {
    pub title: Vec<u8>,
    pub description: Vec<u8>,
    pub category: Vec<u8>,
}

impl CreateTorrent {
    /// An upload needs a title and a category.
    pub fn verify(&self) -> (r: Result<(), ServiceError>)
        ensures
            r is Ok <==> (self.title@.len() > 0 && self.category@.len() > 0),
            r matches Err(e) ==> e == ServiceError::BadRequest,
    {
        if self.title.len() > 0 && self.category.len() > 0 {
            return Ok(());
        }
        Err(ServiceError::BadRequest)
    }
}

/// A complete upload: its fields and its decoded metainfo.
pub struct TorrentRequest {
    pub fields: CreateTorrent,
    pub torrent: Metainfo,
}

/// The parts of an upload body that are read.
#[derive(Debug, Clone, Copy, PartialEq, Eq, Structural)]
pub enum PartKind {
    Title,
    Description,
    Category,
    Torrent,
    Ignored,
}

/// Which part a part's name announces.
pub open spec fn part_kind(name: Seq<u8>) -> PartKind {
    if name == text_title() {
        PartKind::Title
    } else if name == text_description() {
        PartKind::Description
    } else if name == text_category() {
        PartKind::Category
    } else if name == text_torrent() {
        PartKind::Torrent
    } else {
        PartKind::Ignored
    }
}

/// What has been read so far of an upload body. The torrent bytes never exceed `max_size`.
pub struct Intake {
    pub title: Vec<u8>,
    pub description: Vec<u8>,
    pub category: Vec<u8>,
    pub torrent: Vec<u8>,
    pub max_size: usize,
}

impl Intake {
    pub open spec fn wf(&self) -> bool {
        self.torrent@.len() <= self.max_size
    }

    /// Nothing read yet; the torrent part may hold at most `max_size` bytes.
    pub fn new(max_size: usize) -> (r: Intake)
        ensures
            r.wf(),
            r.max_size == max_size,
            r.title@.len() == 0,
            r.description@.len() == 0,
            r.category@.len() == 0,
            r.torrent@.len() == 0,
    {
        Intake {
            title: Vec::new(),
            description: Vec::new(),
            category: Vec::new(),
            torrent: Vec::new(),
            max_size,
        }
    }

    /// Classifies a part by its name. A torrent part must be declared as
    /// `application/x-bittorrent`.
    pub fn begin_part(&self, name: &[u8], content_type: Option<&[u8]>) -> (r: Result<
        PartKind,
        ServiceError,
    >)
        ensures
            part_kind(name@) != PartKind::Torrent ==> r == Ok::<PartKind, ServiceError>(part_kind(name@)),
            part_kind(name@) == PartKind::Torrent ==> r == if (content_type matches Some(c) && c@
                == text_bittorrent()) {
                Ok::<PartKind, ServiceError>(PartKind::Torrent)
            } else {
                Err(ServiceError::InvalidFileType)
            },
    {
        if bytes_eq(name, &lit_title()) {
            Ok(PartKind::Title)
        } else if bytes_eq(name, &lit_description()) {
            Ok(PartKind::Description)
        } else if bytes_eq(name, &lit_category()) {
            Ok(PartKind::Category)
        } else if bytes_eq(name, &lit_torrent()) {
            match content_type {
                Some(c) => if bytes_eq(c, &lit_bittorrent()) {
                    Ok(PartKind::Torrent)
                } else {
                    Err(ServiceError::InvalidFileType)
                },
                None => Err(ServiceError::InvalidFileType),
            }
        } else {
            Ok(PartKind::Ignored)
        }
    }

    /// Takes the text of a title, description or category part; other kinds change nothing.
    pub fn text(&mut self, kind: PartKind, data: &[u8])
        ensures
            final(self).title@ == if kind == PartKind::Title { data@ } else { old(self).title@ },
            final(self).description@ == if kind == PartKind::Description {
                data@
            } else {
                old(self).description@
            },
            final(self).category@ == if kind == PartKind::Category {
                data@
            } else {
                old(self).category@
            },
            final(self).torrent@ == old(self).torrent@,
            final(self).max_size == old(self).max_size,
    {
        match kind {
            PartKind::Title => {
                self.title = copy_bytes(data);
            },
            PartKind::Description => {
                self.description = copy_bytes(data);
            },
            PartKind::Category => {
                self.category = copy_bytes(data);
            },
            _ => {},
        }
    }

    /// Appends a chunk of the torrent part; past `max_size` the upload is refused.
    pub fn torrent_chunk(&mut self, data: &[u8]) -> (r: Result<(), ServiceError>)
        requires
            old(self).wf(),
        ensures
            final(self).wf(),
            final(self).max_size == old(self).max_size,
            final(self).title == old(self).title,
            final(self).description == old(self).description,
            final(self).category == old(self).category,
            r is Ok <==> old(self).torrent@.len() + data@.len() <= old(self).max_size,
            r is Ok ==> final(self).torrent@ == old(self).torrent@ + data@,
            r is Err ==> final(self).torrent@ == old(self).torrent@,
            r matches Err(e) ==> e == ServiceError::InvalidTorrentFile,
    {
        if data.len() > self.max_size - self.torrent.len() {
            return Err(ServiceError::InvalidTorrentFile);
        }
        let mut i: usize = 0;
        let ghost start = self.torrent@;
        while i < data.len()
            invariant
                i <= data@.len(),
                self.torrent@ == start + data@.subrange(0, i as int),
                self.max_size == old(self).max_size,
                self.title == old(self).title,
                self.description == old(self).description,
                self.category == old(self).category,
            decreases data@.len() - i,
        {
            self.torrent.push(data[i]);
            i = i + 1;
            assert(self.torrent@ =~= start + data@.subrange(0, i as int));
        }
        assert(data@.subrange(0, i as int) =~= data@);
        Ok(())
    }

    /// Ends the body: the fields are checked first, then the torrent is decoded.
    pub fn finish(self) -> (r: Result<TorrentRequest, ServiceError>)
        ensures
            !(self.title@.len() > 0 && self.category@.len() > 0) ==> r == Err::<TorrentRequest, ServiceError>(ServiceError::BadRequest),
            (self.title@.len() > 0 && self.category@.len() > 0) ==> (r matches Err(e) ==> e
                == ServiceError::InvalidTorrentFile),
            (self.title@.len() > 0 && self.category@.len() > 0 && is_torrent(self.torrent@)) ==> r is Ok,
            r matches Ok(req) ==> {
                &&& req.fields.title@ == self.title@
                &&& req.fields.description@ == self.description@
                &&& req.fields.category@ == self.category@
                &&& exists|top: Bencode|
                    encode_spec(top) == self.torrent@ && canonical(top) && #[trigger] read_from(top, req.torrent)
            },
    {
        let Intake { title, description, category, torrent, max_size: _ } = self;
        let fields = CreateTorrent { title, description, category };
        match fields.verify() {
            Ok(()) => {},
            Err(e) => {
                return Err(e);
            },
        }
        match Metainfo::from_bytes(torrent.as_slice()) {
            Ok(m) => Ok(TorrentRequest { fields, torrent: m }),
            Err(e) => Err(e),
        }
    }
}

} // verus!
