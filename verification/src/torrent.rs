//! The metadata model: what a metadata file describes, how it is read from
//! its bencoded form, and the identity hash of the content.

use crate::bencode::{dict_get, dict_insert, list_view};
use crate::bencode::{BencodeDict, BencodeValue, BencodeView, DictView};
use crate::codec::{decode_bencoded_value, encode, spec_decode, spec_encode};
use crate::error::{TorrentError, Field, MetadataCause};
use crate::hash::{sha1, sha1_digest};
use crate::text::{bytes_to_text, text_of_bytes, text_to_bytes};
use vstd::prelude::*;
use crate::packing::hash_at;
use vstd::utf8::encode_utf8;

verus! {

/// The hashes of the pieces, in the order of the pieces.
#[derive(Debug, Clone, PartialEq, Eq)]
pub struct Pieces(pub Vec<[u8; 20]>);

/// One file of a content made of several files.
#[derive(Debug, Clone, PartialEq, Eq)]
pub struct FileEntry {
    /// The length of the file in bytes.
    pub length: usize,
    /// The segments of the file's path, outermost first.
    pub path: Vec<String>,
}

/// How the content is laid out in files.
#[derive(Debug, Clone, PartialEq, Eq)]
pub enum Layout {
    /// One file of this length, named by the description's name.
    SingleFile { length: usize },
    /// These files, one after another.
    MultiFile { files: Vec<FileEntry> },
}

/// The description of the content: what the identity hash is taken over.
#[derive(Debug, Clone, PartialEq, Eq)]
pub struct Info {
    /// A name to show; advisory.
    pub name: String,
    /// The number of bytes in every piece but the last.
    pub plength: usize,
    /// The hash of each piece.
    pub pieces: Pieces,
    /// The file or files.
    pub layout: Layout,
}

/// A metadata file: where to announce, and what is shared.
#[derive(Debug, Clone, PartialEq, Eq)]
pub struct Torrent {
    /// The tracker's URL.
    pub announce: String,
    /// The description of the content.
    pub info: Info,
}

// ---------------------------------------------------------------------------
// Views
// ---------------------------------------------------------------------------

/// The mathematical value of a `FileEntry`.
pub struct FileView {
    pub length: nat,
    pub path: Seq<Seq<char>>,
}

/// The mathematical value of a `Layout`.
pub enum LayoutView {
    SingleFile { length: nat },
    MultiFile { files: Seq<FileView> },
}

/// The mathematical value of an `Info`.
pub struct InfoView {
    pub name: Seq<char>,
    pub plength: nat,
    pub pieces: Seq<Seq<u8>>,
    pub layout: LayoutView,
}

/// The mathematical value of a `Torrent`.
pub struct TorrentView {
    pub announce: Seq<char>,
    pub info: InfoView,
}

/// The texts of a vector of strings.
pub open spec fn texts_view(texts: &Vec<String>) -> Seq<Seq<char>> {
    Seq::new(texts.len() as nat, |i: int| texts[i]@)
}

/// The hashes of a vector of hashes.
pub open spec fn hashes_view(hashes: &Vec<[u8; 20]>) -> Seq<Seq<u8>> {
    Seq::new(hashes.len() as nat, |i: int| hashes[i]@)
}

/// The values of a vector of file entries.
pub open spec fn files_view(files: &Vec<FileEntry>) -> Seq<FileView> {
    Seq::new(files.len() as nat, |i: int| files[i]@)
}

impl View for Pieces {
    type V = Seq<Seq<u8>>;

    open spec fn view(&self) -> Seq<Seq<u8>> {
        hashes_view(&self.0)
    }
}

impl View for FileEntry {
    type V = FileView;

    open spec fn view(&self) -> FileView {
        FileView { length: self.length as nat, path: texts_view(&self.path) }
    }
}

impl View for Layout {
    type V = LayoutView;

    open spec fn view(&self) -> LayoutView {
        match self {
            Layout::SingleFile { length } => LayoutView::SingleFile { length: *length as nat },
            Layout::MultiFile { files } => LayoutView::MultiFile { files: files_view(files) },
        }
    }
}

impl View for Info {
    type V = InfoView;

    open spec fn view(&self) -> InfoView {
        InfoView {
            name: self.name@,
            plength: self.plength as nat,
            pieces: self.pieces@,
            layout: self.layout@,
        }
    }
}

impl View for Torrent {
    type V = TorrentView;

    open spec fn view(&self) -> TorrentView {
        TorrentView { announce: self.announce@, info: self.info@ }
    }
}

// ---------------------------------------------------------------------------
// From bencode to the model
// ---------------------------------------------------------------------------

/// The dictionary key written as `name`.
pub open spec fn key(name: &str) -> Seq<u8> {
    encode_utf8(name@)
}

/// The text bound to `name` in `d`.
pub open spec fn text_field(d: DictView, name: &str, field: Field) -> Result<
    Seq<char>,
    MetadataCause,
> {
    match dict_get(d, key(name)) {
        None => Err(MetadataCause::Missing(field)),
        Some(BencodeView::ByteString(b)) => match text_of_bytes(b) {
            Some(t) => Ok(t),
            None => Err(MetadataCause::WrongKind(field)),
        },
        Some(_) => Err(MetadataCause::WrongKind(field)),
    }
}

/// The size that `v` holds: an integer that is not negative and fits a `usize`.
pub open spec fn size_value(v: BencodeView, field: Field) -> Result<nat, MetadataCause> {
    match v {
        BencodeView::Integer(n) => if 0 <= n <= usize::MAX {
            Ok(n as nat)
        } else {
            Err(MetadataCause::WrongKind(field))
        },
        _ => Err(MetadataCause::WrongKind(field)),
    }
}

/// The size bound to `name` in `d`.
pub open spec fn size_field(d: DictView, name: &str, field: Field) -> Result<nat, MetadataCause> {
    match dict_get(d, key(name)) {
        None => Err(MetadataCause::Missing(field)),
        Some(v) => size_value(v, field),
    }
}

/// `b` cut into hashes of 20 bytes.
pub open spec fn hashes_of(b: Seq<u8>) -> Seq<Seq<u8>> {
    Seq::new((b.len() / 20) as nat, |i: int| b.subrange(20 * i, 20 * i + 20))
}

/// The piece hashes bound to `pieces` in `d`: a byte string whose length is a
/// multiple of 20.
pub open spec fn pieces_field(d: DictView) -> Result<Seq<Seq<u8>>, MetadataCause> {
    match dict_get(d, key("pieces")) {
        None => Err(MetadataCause::Missing(Field::Pieces)),
        Some(BencodeView::ByteString(b)) => if b.len() % 20 == 0 {
            Ok(hashes_of(b))
        } else {
            Err(MetadataCause::PiecesLength)
        },
        Some(_) => Err(MetadataCause::WrongKind(Field::Pieces)),
    }
}

/// The path segments that the values of `ps` from index `i` on hold.
pub open spec fn path_from(ps: Seq<BencodeView>, i: int) -> Result<Seq<Seq<char>>, MetadataCause>
    decreases ps.len() - i,
{
    if i < 0 || i >= ps.len() {
        Ok(Seq::empty())
    } else {
        match ps[i] {
            BencodeView::ByteString(b) => match text_of_bytes(b) {
                Some(t) => match path_from(ps, i + 1) {
                    Ok(rest) => Ok(seq![t] + rest),
                    Err(cause) => Err(cause),
                },
                None => Err(MetadataCause::WrongKind(Field::Path)),
            },
            _ => Err(MetadataCause::WrongKind(Field::Path)),
        }
    }
}

/// The file that `v` describes: a dictionary with a `length` and a `path`.
pub open spec fn file_of(v: BencodeView) -> Result<FileView, MetadataCause> {
    match v {
        BencodeView::Dictionary(d) => match size_field(d, "length", Field::Length) {
            Err(cause) => Err(cause),
            Ok(length) => match dict_get(d, key("path")) {
                None => Err(MetadataCause::Missing(Field::Path)),
                Some(BencodeView::List(ps)) => match path_from(ps, 0) {
                    Ok(path) => Ok(FileView { length, path }),
                    Err(cause) => Err(cause),
                },
                Some(_) => Err(MetadataCause::WrongKind(Field::Path)),
            },
        },
        _ => Err(MetadataCause::WrongKind(Field::Files)),
    }
}

/// The files that the values of `fs` from index `i` on describe.
pub open spec fn files_from(fs: Seq<BencodeView>, i: int) -> Result<Seq<FileView>, MetadataCause>
    decreases fs.len() - i,
{
    if i < 0 || i >= fs.len() {
        Ok(Seq::empty())
    } else {
        match file_of(fs[i]) {
            Err(cause) => Err(cause),
            Ok(file) => match files_from(fs, i + 1) {
                Ok(rest) => Ok(seq![file] + rest),
                Err(cause) => Err(cause),
            },
        }
    }
}

/// The layout that the description `d` gives: exactly one of `length` and
/// `files`.
pub open spec fn layout_of(d: DictView) -> Result<LayoutView, MetadataCause> {
    match (dict_get(d, key("length")), dict_get(d, key("files"))) {
        (Some(_), Some(_)) => Err(MetadataCause::AmbiguousLayout),
        (Some(v), None) => match size_value(v, Field::Length) {
            Ok(length) => Ok(LayoutView::SingleFile { length }),
            Err(cause) => Err(cause),
        },
        (None, Some(BencodeView::List(fs))) => match files_from(fs, 0) {
            Ok(files) => Ok(LayoutView::MultiFile { files }),
            Err(cause) => Err(cause),
        },
        (None, Some(_)) => Err(MetadataCause::WrongKind(Field::Files)),
        (None, None) => Err(MetadataCause::Missing(Field::Length)),
    }
}

/// The description that the dictionary `d` holds. Its fields are read in the
/// order name, piece length, pieces, layout; the first one at fault decides.
pub open spec fn info_of(d: DictView) -> Result<InfoView, MetadataCause> {
    match text_field(d, "name", Field::Name) {
        Err(cause) => Err(cause),
        Ok(name) => match size_field(d, "piece length", Field::PieceLength) {
            Err(cause) => Err(cause),
            Ok(plength) => match pieces_field(d) {
                Err(cause) => Err(cause),
                Ok(pieces) => match layout_of(d) {
                    Err(cause) => Err(cause),
                    Ok(layout) => Ok(InfoView { name, plength, pieces, layout }),
                },
            },
        },
    }
}

/// The metadata that the bencoded value `root` holds: a dictionary with the
/// text `announce` and the dictionary `info`.
pub open spec fn torrent_of(root: BencodeView) -> Result<TorrentView, MetadataCause> {
    match root {
        BencodeView::Dictionary(d) => match text_field(d, "announce", Field::Announce) {
            Err(cause) => Err(cause),
            Ok(announce) => match dict_get(d, key("info")) {
                None => Err(MetadataCause::Missing(Field::Info)),
                Some(BencodeView::Dictionary(i)) => match info_of(i) {
                    Ok(info) => Ok(TorrentView { announce, info }),
                    Err(cause) => Err(cause),
                },
                Some(_) => Err(MetadataCause::WrongKind(Field::Info)),
            },
        },
        _ => Err(MetadataCause::NotADictionary),
    }
}

/// What the bytes of a metadata file describe. Bytes that follow the
/// top-level value are not looked at.
pub open spec fn spec_parse(bytes: Seq<u8>) -> Result<TorrentView, TorrentError> {
    match spec_decode(bytes) {
        Err(cause) => Err(TorrentError::MalformedBencode(cause)),
        Ok((root, _)) => match torrent_of(root) {
            Ok(torrent) => Ok(torrent),
            Err(cause) => Err(TorrentError::InvalidMetadata(cause)),
        },
    }
}

// ---------------------------------------------------------------------------
// Reading a metadata file
// ---------------------------------------------------------------------------

fn read_text(d: &BencodeDict, name: &str, field: Field) -> (res: Result<String, MetadataCause>)
    ensures
        match res {
            Ok(t) => text_field(d@, name, field) == Ok::<Seq<char>, MetadataCause>(t@),
            Err(cause) => text_field(d@, name, field) == Err::<Seq<char>, MetadataCause>(cause),
        },
{
    match d.get(name.as_bytes()) {
        None => Err(MetadataCause::Missing(field)),
        Some(BencodeValue::ByteString(b)) => match bytes_to_text(b.as_slice()) {
            Some(t) => Ok(t),
            None => Err(MetadataCause::WrongKind(field)),
        },
        Some(_) => Err(MetadataCause::WrongKind(field)),
    }
}

fn read_size_value(v: &BencodeValue, field: Field) -> (res: Result<usize, MetadataCause>)
    ensures
        match res {
            Ok(n) => size_value(v@, field) == Ok::<nat, MetadataCause>(n as nat),
            Err(cause) => size_value(v@, field) == Err::<nat, MetadataCause>(cause),
        },
{
    match v {
        BencodeValue::Integer(n) => {
            if *n >= 0 && (*n as u64) <= usize::MAX as u64 {
                Ok(*n as usize)
            } else {
                Err(MetadataCause::WrongKind(field))
            }
        },
        _ => Err(MetadataCause::WrongKind(field)),
    }
}

fn read_size(d: &BencodeDict, name: &str, field: Field) -> (res: Result<usize, MetadataCause>)
    ensures
        match res {
            Ok(n) => size_field(d@, name, field) == Ok::<nat, MetadataCause>(n as nat),
            Err(cause) => size_field(d@, name, field) == Err::<nat, MetadataCause>(cause),
        },
{
    match d.get(name.as_bytes()) {
        None => Err(MetadataCause::Missing(field)),
        Some(v) => read_size_value(v, field),
    }
}

impl Pieces {
    /// Cuts a byte string into piece hashes of 20 bytes each; `None` when its
    /// length is not a multiple of 20.
    pub fn from_bytes(bytes: &[u8]) -> (res: Option<Pieces>)
        ensures
            match res {
                Some(pieces) => bytes@.len() % 20 == 0 && pieces@ == hashes_of(bytes@),
                None => bytes@.len() % 20 != 0,
            },
    {
        if bytes.len() % 20 != 0 {
            return None;
        }
        let len = bytes.len();
        let count = len / 20;
        let mut hashes: Vec<[u8; 20]> = Vec::new();
        let mut i: usize = 0;
        while i < count
            invariant
                i <= count,
                len == bytes@.len(),
                20 * count == len,
                count == bytes@.len() / 20,
                bytes@.len() % 20 == 0,
                hashes@.len() == i,
                forall|k: int|
                    0 <= k < i ==> (#[trigger] hashes@[k])@ == bytes@.subrange(20 * k, 20 * k + 20),
            decreases count - i,
        {
            let hash = hash_at(bytes, 20 * i);
            hashes.push(hash);
            i += 1;
        }
        let pieces = Pieces(hashes);
        assert(pieces@ =~= hashes_of(bytes@));
        Some(pieces)
    }

    /// The number of pieces.
    pub fn len(&self) -> (n: usize)
        ensures
            n == self@.len(),
    {
        self.0.len()
    }
}

fn read_pieces(d: &BencodeDict) -> (res: Result<Pieces, MetadataCause>)
    ensures
        match res {
            Ok(p) => pieces_field(d@) == Ok::<Seq<Seq<u8>>, MetadataCause>(p@),
            Err(cause) => pieces_field(d@) == Err::<Seq<Seq<u8>>, MetadataCause>(cause),
        },
{
    match d.get("pieces".as_bytes()) {
        None => Err(MetadataCause::Missing(Field::Pieces)),
        Some(BencodeValue::ByteString(b)) => match Pieces::from_bytes(b.as_slice()) {
            Some(pieces) => Ok(pieces),
            None => Err(MetadataCause::PiecesLength),
        },
        Some(_) => Err(MetadataCause::WrongKind(Field::Pieces)),
    }
}

/// `front` put before what `rest` holds.
pub open spec fn prepend<T>(front: Seq<T>, rest: Result<Seq<T>, MetadataCause>) -> Result<
    Seq<T>,
    MetadataCause,
> {
    match rest {
        Ok(tail) => Ok(front + tail),
        Err(cause) => Err(cause),
    }
}

fn read_path(ps: &Vec<BencodeValue>) -> (res: Result<Vec<String>, MetadataCause>)
    ensures
        match res {
            Ok(path) => path_from(list_view(ps), 0) == Ok::<Seq<Seq<char>>, MetadataCause>(
                texts_view(&path),
            ),
            Err(cause) => path_from(list_view(ps), 0) == Err::<Seq<Seq<char>>, MetadataCause>(cause),
        },
{
    let ghost pv = list_view(ps);
    let mut path: Vec<String> = Vec::new();
    let mut i: usize = 0;
    assert(texts_view(&path) =~= Seq::empty());
    while i < ps.len()
        invariant
            i <= ps.len(),
            pv == list_view(ps),
            path_from(pv, 0) == prepend(texts_view(&path), path_from(pv, i as int)),
        decreases ps.len() - i,
    {
        assert(pv[i as int] == ps[i as int]@);
        match &ps[i] {
            BencodeValue::ByteString(b) => match bytes_to_text(b.as_slice()) {
                Some(t) => {
                    let ghost before = texts_view(&path);
                    let ghost tail = path_from(pv, i + 1);
                    path.push(t);
                    proof {
                        assert(texts_view(&path) =~= before.push(t@));
                        match tail {
                            Ok(rest) => {
                                assert(before + (seq![t@] + rest) =~= before.push(t@) + rest);
                            },
                            Err(_) => {},
                        }
                    }
                },
                None => {
                    return Err(MetadataCause::WrongKind(Field::Path));
                },
            },
            _ => {
                return Err(MetadataCause::WrongKind(Field::Path));
            },
        }
        i += 1;
    }
    assert(texts_view(&path) + Seq::<Seq<char>>::empty() =~= texts_view(&path));
    Ok(path)
}

fn read_file(v: &BencodeValue) -> (res: Result<FileEntry, MetadataCause>)
    ensures
        match res {
            Ok(file) => file_of(v@) == Ok::<FileView, MetadataCause>(file@),
            Err(cause) => file_of(v@) == Err::<FileView, MetadataCause>(cause),
        },
{
    match v {
        BencodeValue::Dictionary(d) => {
            let length = match read_size(d, "length", Field::Length) {
                Ok(length) => length,
                Err(cause) => {
                    return Err(cause);
                },
            };
            match d.get("path".as_bytes()) {
                None => Err(MetadataCause::Missing(Field::Path)),
                Some(BencodeValue::List(ps)) => match read_path(ps) {
                    Ok(path) => Ok(FileEntry { length, path }),
                    Err(cause) => Err(cause),
                },
                Some(_) => Err(MetadataCause::WrongKind(Field::Path)),
            }
        },
        _ => Err(MetadataCause::WrongKind(Field::Files)),
    }
}

fn read_files(fs: &Vec<BencodeValue>) -> (res: Result<Vec<FileEntry>, MetadataCause>)
    ensures
        match res {
            Ok(files) => files_from(list_view(fs), 0) == Ok::<Seq<FileView>, MetadataCause>(
                files_view(&files),
            ),
            Err(cause) => files_from(list_view(fs), 0) == Err::<Seq<FileView>, MetadataCause>(cause),
        },
{
    let ghost fv = list_view(fs);
    let mut files: Vec<FileEntry> = Vec::new();
    let mut i: usize = 0;
    assert(files_view(&files) =~= Seq::empty());
    while i < fs.len()
        invariant
            i <= fs.len(),
            fv == list_view(fs),
            files_from(fv, 0) == prepend(files_view(&files), files_from(fv, i as int)),
        decreases fs.len() - i,
    {
        assert(fv[i as int] == fs[i as int]@);
        match read_file(&fs[i]) {
            Ok(file) => {
                let ghost before = files_view(&files);
                let ghost tail = files_from(fv, i + 1);
                let ghost added = file@;
                files.push(file);
                proof {
                    assert(files_view(&files) =~= before.push(added));
                    match tail {
                        Ok(rest) => {
                            assert(before + (seq![added] + rest) =~= before.push(added) + rest);
                        },
                        Err(_) => {},
                    }
                }
            },
            Err(cause) => {
                return Err(cause);
            },
        }
        i += 1;
    }
    assert(files_view(&files) + Seq::<FileView>::empty() =~= files_view(&files));
    Ok(files)
}

fn read_layout(d: &BencodeDict) -> (res: Result<Layout, MetadataCause>)
    ensures
        match res {
            Ok(layout) => layout_of(d@) == Ok::<LayoutView, MetadataCause>(layout@),
            Err(cause) => layout_of(d@) == Err::<LayoutView, MetadataCause>(cause),
        },
{
    match (d.get("length".as_bytes()), d.get("files".as_bytes())) {
        (Some(_), Some(_)) => Err(MetadataCause::AmbiguousLayout),
        (Some(v), None) => match read_size_value(v, Field::Length) {
            Ok(length) => Ok(Layout::SingleFile { length }),
            Err(cause) => Err(cause),
        },
        (None, Some(BencodeValue::List(fs))) => match read_files(fs) {
            Ok(files) => Ok(Layout::MultiFile { files }),
            Err(cause) => Err(cause),
        },
        (None, Some(_)) => Err(MetadataCause::WrongKind(Field::Files)),
        (None, None) => Err(MetadataCause::Missing(Field::Length)),
    }
}

impl Info {
    /// Reads a description from its dictionary.
    pub fn from_dict(d: &BencodeDict) -> (res: Result<Info, MetadataCause>)
        ensures
            match res {
                Ok(info) => info_of(d@) == Ok::<InfoView, MetadataCause>(info@),
                Err(cause) => info_of(d@) == Err::<InfoView, MetadataCause>(cause),
            },
    {
        let name = match read_text(d, "name", Field::Name) {
            Ok(name) => name,
            Err(cause) => {
                return Err(cause);
            },
        };
        let plength = match read_size(d, "piece length", Field::PieceLength) {
            Ok(plength) => plength,
            Err(cause) => {
                return Err(cause);
            },
        };
        let pieces = match read_pieces(d) {
            Ok(pieces) => pieces,
            Err(cause) => {
                return Err(cause);
            },
        };
        let layout = match read_layout(d) {
            Ok(layout) => layout,
            Err(cause) => {
                return Err(cause);
            },
        };
        Ok(Info { name, plength, pieces, layout })
    }
}

impl Torrent {
    /// Reads the metadata that a bencoded value holds.
    pub fn from_bencode(root: &BencodeValue) -> (res: Result<Torrent, MetadataCause>)
        ensures
            match res {
                Ok(torrent) => torrent_of(root@) == Ok::<TorrentView, MetadataCause>(torrent@),
                Err(cause) => torrent_of(root@) == Err::<TorrentView, MetadataCause>(cause),
            },
    {
        match root {
            BencodeValue::Dictionary(d) => {
                let announce = match read_text(d, "announce", Field::Announce) {
                    Ok(announce) => announce,
                    Err(cause) => {
                        return Err(cause);
                    },
                };
                match d.get("info".as_bytes()) {
                    None => Err(MetadataCause::Missing(Field::Info)),
                    Some(BencodeValue::Dictionary(i)) => match Info::from_dict(i) {
                        Ok(info) => Ok(Torrent { announce, info }),
                        Err(cause) => Err(cause),
                    },
                    Some(_) => Err(MetadataCause::WrongKind(Field::Info)),
                }
            },
            _ => Err(MetadataCause::NotADictionary),
        }
    }

    /// Reads a metadata file. Bytes that are not bencode give
    /// `MalformedBencode`; a value that lacks a required key, binds one to
    /// the wrong kind of value, or holds piece hashes whose length is not a
    /// multiple of 20, gives `InvalidMetadata`. Nothing is read in part.
    pub fn parse(bytes: &[u8]) -> (res: Result<Torrent, TorrentError>)
        ensures
            match res {
                Ok(torrent) => spec_parse(bytes@) == Ok::<TorrentView, TorrentError>(torrent@),
                Err(error) => spec_parse(bytes@) == Err::<TorrentView, TorrentError>(error),
            },
    {
        match decode_bencoded_value(bytes) {
            Err(error) => Err(error),
            Ok((root, _)) => match Torrent::from_bencode(&root) {
                Ok(torrent) => Ok(torrent),
                Err(cause) => Err(TorrentError::InvalidMetadata(cause)),
            },
        }
    }
}

// ---------------------------------------------------------------------------
// The identity hash
// ---------------------------------------------------------------------------

/// The hashes from index `i` on, one after another.
pub open spec fn join_from(hashes: Seq<Seq<u8>>, i: int) -> Seq<u8>
    decreases hashes.len() - i,
{
    if i < 0 || i >= hashes.len() {
        Seq::empty()
    } else {
        hashes[i] + join_from(hashes, i + 1)
    }
}

/// Every length of the description can be written as a bencode integer.
pub open spec fn sizes_fit(info: InfoView) -> bool {
    &&& info.plength <= i64::MAX
    &&& match info.layout {
        LayoutView::SingleFile { length } => length <= i64::MAX,
        LayoutView::MultiFile { files } => forall|i: int|
            0 <= i < files.len() ==> (#[trigger] files[i]).length <= i64::MAX,
    }
}

/// The bencoded form of a path: the list of its segments.
pub open spec fn path_value(path: Seq<Seq<char>>) -> BencodeView {
    BencodeView::List(Seq::new(path.len(), |i: int| BencodeView::ByteString(encode_utf8(path[i]))))
}

/// The bencoded form of a file: the dictionary of its `length` and `path`.
pub open spec fn file_value(file: FileView) -> BencodeView {
    BencodeView::Dictionary(
        dict_insert(
            dict_insert(Seq::empty(), key("length"), BencodeView::Integer(file.length as i64)),
            key("path"),
            path_value(file.path),
        ),
    )
}

/// The bencoded forms of files.
pub open spec fn files_value(files: Seq<FileView>) -> BencodeView {
    BencodeView::List(Seq::new(files.len(), |i: int| file_value(files[i])))
}

/// The entry by which a description gives its layout: `length` or `files`.
pub open spec fn layout_entry(layout: LayoutView) -> (Seq<u8>, BencodeView) {
    match layout {
        LayoutView::SingleFile { length } => (key("length"), BencodeView::Integer(length as i64)),
        LayoutView::MultiFile { files } => (key("files"), files_value(files)),
    }
}

/// The bencoded form of a description: the dictionary that binds its layout,
/// `name`, `piece length` and `pieces`, and nothing else.
pub open spec fn info_value(info: InfoView) -> BencodeView {
    let layout = layout_entry(info.layout);
    BencodeView::Dictionary(
        dict_insert(
            dict_insert(
                dict_insert(
                    dict_insert(Seq::empty(), layout.0, layout.1),
                    key("name"),
                    BencodeView::ByteString(encode_utf8(info.name)),
                ),
                key("piece length"),
                BencodeView::Integer(info.plength as i64),
            ),
            key("pieces"),
            BencodeView::ByteString(join_from(info.pieces, 0)),
        ),
    )
}

/// The identity hash of a description: SHA-1 over the canonical encoding of
/// its bencoded form.
pub open spec fn identity_hash(info: InfoView) -> Seq<u8> {
    sha1(spec_encode(info_value(info)))
}

fn size_to_integer(n: usize) -> (res: Option<BencodeValue>)
    ensures
        match res {
            Some(v) => n <= i64::MAX && v@ == BencodeView::Integer(n as i64),
            None => n > i64::MAX,
        },
{
    if n as u64 > i64::MAX as u64 {
        None
    } else {
        Some(BencodeValue::Integer(n as i64))
    }
}

impl Pieces {
    /// The hashes one after another, as `pieces` holds them in a metadata file.
    pub fn to_bytes(&self) -> (bytes: Vec<u8>)
        ensures
            bytes@ == join_from(self@, 0),
    {
        let mut out: Vec<u8> = Vec::new();
        let mut i: usize = 0;
        while i < self.0.len()
            invariant
                i <= self.0.len(),
                out@ + join_from(self@, i as int) == join_from(self@, 0),
            decreases self.0.len() - i,
        {
            let ghost before = out@;
            out.extend_from_slice(self.0[i].as_slice());
            assert(self@[i as int] == self.0[i as int]@);
            assert(out@ + join_from(self@, i + 1) =~= before + join_from(self@, i as int));
            i += 1;
        }
        assert(out@ + Seq::<u8>::empty() =~= out@);
        out
    }
}

fn path_to_bencode(path: &Vec<String>) -> (value: BencodeValue)
    ensures
        value@ == path_value(texts_view(path)),
{
    let mut segments: Vec<BencodeValue> = Vec::new();
    let mut i: usize = 0;
    while i < path.len()
        invariant
            i <= path.len(),
            segments@.len() == i,
            forall|k: int|
                0 <= k < i ==> (#[trigger] segments@[k])@ == BencodeView::ByteString(
                    encode_utf8(path@[k]@),
                ),
        decreases path.len() - i,
    {
        segments.push(BencodeValue::ByteString(text_to_bytes(path[i].as_str())));
        i += 1;
    }
    let value = BencodeValue::List(segments);
    assert(value@->List_0 =~= path_value(texts_view(path))->List_0);
    value
}

impl FileEntry {
    /// The bencoded form of the file; `None` when its length is too large
    /// for a bencode integer.
    pub fn to_bencode(&self) -> (res: Option<BencodeValue>)
        ensures
            match res {
                Some(v) => self@.length <= i64::MAX && v@ == file_value(self@),
                None => self@.length > i64::MAX,
            },
    {
        let length = match size_to_integer(self.length) {
            Some(length) => length,
            None => {
                return None;
            },
        };
        let mut d = BencodeDict::new();
        d.insert(text_to_bytes("length"), length);
        d.insert(text_to_bytes("path"), path_to_bencode(&self.path));
        Some(BencodeValue::Dictionary(d))
    }
}

fn files_to_bencode(files: &Vec<FileEntry>) -> (res: Option<BencodeValue>)
    ensures
        match res {
            Some(v) => v@ == files_value(files_view(files)) && forall|i: int|
                0 <= i < files.len() ==> (#[trigger] files_view(files)[i]).length <= i64::MAX,
            None => exists|i: int|
                0 <= i < files.len() && (#[trigger] files_view(files)[i]).length > i64::MAX,
        },
{
    let ghost fv = files_view(files);
    let mut values: Vec<BencodeValue> = Vec::new();
    let mut i: usize = 0;
    while i < files.len()
        invariant
            i <= files.len(),
            fv == files_view(files),
            values@.len() == i,
            forall|k: int| 0 <= k < i ==> (#[trigger] values@[k])@ == file_value(fv[k]),
            forall|k: int| 0 <= k < i ==> (#[trigger] fv[k]).length <= i64::MAX,
        decreases files.len() - i,
    {
        assert(fv[i as int] == files[i as int]@);
        match files[i].to_bencode() {
            Some(v) => {
                values.push(v);
            },
            None => {
                return None;
            },
        }
        i += 1;
    }
    let value = BencodeValue::List(values);
    assert(value@->List_0 =~= files_value(fv)->List_0);
    Some(value)
}

impl Info {
    /// The bencoded form of the description, which the identity hash is taken
    /// over. A length that is too large for a bencode integer gives
    /// `InvalidMetadata`.
    pub fn to_bencode(&self) -> (res: Result<BencodeValue, TorrentError>)
        ensures
            match res {
                Ok(v) => sizes_fit(self@) && v@ == info_value(self@),
                Err(error) => !sizes_fit(self@) && error == TorrentError::InvalidMetadata(
                    MetadataCause::OutOfRange,
                ),
            },
    {
        let failed = Err(TorrentError::InvalidMetadata(MetadataCause::OutOfRange));
        let plength = match size_to_integer(self.plength) {
            Some(plength) => plength,
            None => {
                return failed;
            },
        };
        let mut d = BencodeDict::new();
        match &self.layout {
            Layout::SingleFile { length } => match size_to_integer(*length) {
                Some(length) => {
                    d.insert(text_to_bytes("length"), length);
                },
                None => {
                    return failed;
                },
            },
            Layout::MultiFile { files } => match files_to_bencode(files) {
                Some(files) => {
                    d.insert(text_to_bytes("files"), files);
                },
                None => {
                    return failed;
                },
            },
        }
        d.insert(text_to_bytes("name"), BencodeValue::ByteString(text_to_bytes(self.name.as_str())));
        d.insert(text_to_bytes("piece length"), plength);
        d.insert(text_to_bytes("pieces"), BencodeValue::ByteString(self.pieces.to_bytes()));
        Ok(BencodeValue::Dictionary(d))
    }
}

impl Torrent {
    /// The identity hash of the content: SHA-1 over the canonical encoding of
    /// the description alone. The announce URL has no part in it.
    pub fn info_hash(&self) -> (res: Result<[u8; 20], TorrentError>)
        ensures
            match res {
                Ok(hash) => sizes_fit(self@.info) && hash@ == identity_hash(self@.info),
                Err(error) => !sizes_fit(self@.info) && error == TorrentError::InvalidMetadata(
                    MetadataCause::OutOfRange,
                ),
            },
    {
        match self.info.to_bencode() {
            Ok(value) => {
                let encoded = encode(&value);
                Ok(sha1_digest(encoded.as_slice()))
            },
            Err(error) => Err(error),
        }
    }
}

/// The identity hash depends on the description alone: two metadata
/// dictionaries that bind `info` alike give the same hash, whatever they
/// announce.
pub proof fn lemma_identity_hash_ignores_announce(a: DictView, b: DictView)
    requires
        dict_get(a, key("info")) == dict_get(b, key("info")),
        torrent_of(BencodeView::Dictionary(a)) is Ok,
        torrent_of(BencodeView::Dictionary(b)) is Ok,
    ensures
        torrent_of(BencodeView::Dictionary(a)).unwrap().info == torrent_of(
            BencodeView::Dictionary(b),
        ).unwrap().info,
        identity_hash(torrent_of(BencodeView::Dictionary(a)).unwrap().info) == identity_hash(
            torrent_of(BencodeView::Dictionary(b)).unwrap().info,
        ),
{
}

proof fn lemma_files_fit(fs: Seq<BencodeView>, i: int)
    requires
        0 <= i <= fs.len(),
    ensures
        files_from(fs, i) matches Ok(files) ==> forall|k: int|
            0 <= k < files.len() ==> (#[trigger] files[k]).length <= i64::MAX,
    decreases fs.len() - i,
{
    if i < fs.len() {
        lemma_files_fit(fs, i + 1);
        match files_from(fs, i) {
            Ok(files) => {
                let first = file_of(fs[i]).unwrap();
                let rest = files_from(fs, i + 1).unwrap();
                assert forall|k: int| 0 <= k < files.len() implies (#[trigger] files[k]).length
                    <= i64::MAX by {
                    if k > 0 {
                        assert(files[k] == rest[k - 1]);
                    }
                }
            },
            Err(_) => {},
        }
    }
}

/// A description that was read from a metadata file has an identity hash:
/// all its lengths can be written back.
pub proof fn lemma_parsed_sizes_fit(bytes: Seq<u8>)
    ensures
        spec_parse(bytes) matches Ok(torrent) ==> sizes_fit(torrent.info),
{
    match spec_parse(bytes) {
        Ok(torrent) => {
            let root = spec_decode(bytes).unwrap().0;
            let d = root->Dictionary_0;
            let i = dict_get(d, key("info")).unwrap()->Dictionary_0;
            match dict_get(i, key("files")) {
                Some(BencodeView::List(fs)) => {
                    lemma_files_fit(fs, 0);
                },
                _ => {},
            }
        },
        Err(_) => {},
    }
}

// ---------------------------------------------------------------------------
// The geometry of the pieces
// ---------------------------------------------------------------------------

/// The lengths of the files from index `i` on, added up.
pub open spec fn files_total(files: Seq<FileView>, i: int) -> nat
    decreases files.len() - i,
{
    if i < 0 || i >= files.len() {
        0
    } else {
        files[i].length + files_total(files, i + 1)
    }
}

/// The length of the whole content: the sum of the lengths of its files.
pub open spec fn total_length(layout: LayoutView) -> nat {
    match layout {
        LayoutView::SingleFile { length } => length,
        LayoutView::MultiFile { files } => files_total(files, 0),
    }
}

/// The pieces cover the content exactly: every piece but the last has the
/// piece length, and the last one holds the remainder, which is not empty.
pub open spec fn consistent(info: InfoView) -> bool {
    &&& info.plength > 0
    &&& (info.pieces.len() - 1) * info.plength < total_length(info.layout)
    &&& total_length(info.layout) <= info.pieces.len() * info.plength
}

/// Where the piece with this index starts in the content.
pub open spec fn piece_offset(info: InfoView, index: int) -> int {
    info.plength * index
}

/// The length of the piece with this index: the piece length, or for the
/// last piece what is left of the content.
pub open spec fn piece_size(info: InfoView, index: int) -> int {
    if info.plength <= total_length(info.layout) - info.plength * index {
        info.plength as int
    } else {
        total_length(info.layout) - info.plength * index
    }
}

/// In a consistent description every piece is non-empty, no longer than the
/// piece length, and ends where the next one starts or where the content ends.
pub proof fn lemma_piece_geometry(info: InfoView, index: int)
    requires
        consistent(info),
        0 <= index < info.pieces.len(),
    ensures
        0 < piece_size(info, index) <= info.plength,
        0 <= piece_offset(info, index),
        piece_offset(info, index) + piece_size(info, index) <= total_length(info.layout),
        index + 1 < info.pieces.len() ==> piece_offset(info, index) + piece_size(info, index)
            == piece_offset(info, index + 1),
        index + 1 == info.pieces.len() ==> piece_offset(info, index) + piece_size(info, index)
            == total_length(info.layout),
{
    let p = info.plength as int;
    let n = info.pieces.len() as int;
    let total = total_length(info.layout) as int;
    assert(p * index <= p * (n - 1)) by (nonlinear_arith)
        requires
            p > 0,
            0 <= index <= n - 1,
    ;
    assert((n - 1) * p == p * (n - 1)) by (nonlinear_arith);
    assert(0 <= p * index) by (nonlinear_arith)
        requires
            p > 0,
            0 <= index,
    ;
    assert(p * (index + 1) == p * index + p) by (nonlinear_arith);
    if index + 1 < n {
        assert(p * (index + 1) <= p * (n - 1)) by (nonlinear_arith)
            requires
                p > 0,
                0 <= index + 1 <= n - 1,
        ;
    } else {
        assert(n * p == p * index + p) by (nonlinear_arith)
            requires
                index + 1 == n,
        ;
    }
}

impl Layout {
    /// The length of the whole content; `None` when the sum of the files'
    /// lengths does not fit a `usize`.
    pub fn total_length(&self) -> (res: Option<usize>)
        ensures
            match res {
                Some(n) => n == total_length(self@),
                None => total_length(self@) > usize::MAX,
            },
    {
        match self {
            Layout::SingleFile { length } => Some(*length),
            Layout::MultiFile { files } => {
                let ghost fv = files_view(files);
                let mut sum: usize = 0;
                let mut i: usize = 0;
                while i < files.len()
                    invariant
                        i <= files.len(),
                        fv == files_view(files),
                        total_length(self@) == files_total(fv, 0),
                        sum + files_total(fv, i as int) == files_total(fv, 0),
                    decreases files.len() - i,
                {
                    assert(fv[i as int] == files[i as int]@);
                    let length = files[i].length;
                    assert(files_total(fv, i as int) == length + files_total(fv, i + 1));
                    if length > usize::MAX - sum {
                        return None;
                    }
                    sum = sum + length;
                    i += 1;
                }
                Some(sum)
            },
        }
    }
}

impl Info {
    /// The length of the whole content; `None` when it does not fit a `usize`.
    pub fn total_length(&self) -> (res: Option<usize>)
        ensures
            match res {
                Some(n) => n == total_length(self@.layout),
                None => total_length(self@.layout) > usize::MAX,
            },
    {
        self.layout.total_length()
    }

    /// Tells whether the pieces cover the content exactly.
    pub fn is_consistent(&self) -> (yes: bool)
        ensures
            yes == (consistent(self@) && total_length(self@.layout) <= usize::MAX),
    {
        let total = match self.layout.total_length() {
            Some(total) => total,
            None => {
                return false;
            },
        };
        if self.plength == 0 {
            return false;
        }
        let count = self.pieces.len();
        let p = self.plength as u128;
        let n = count as u128;
        let t = total as u128;
        assert(n * p <= 0xffff_ffff_ffff_ffff * 0xffff_ffff_ffff_ffff) by (nonlinear_arith)
            requires
                0 <= n <= 0xffff_ffff_ffff_ffff,
                0 <= p <= 0xffff_ffff_ffff_ffff,
        ;
        let upper = n * p;
        if count == 0 {
            assert((0 - 1) * p < 0 && 0 * p == 0) by (nonlinear_arith)
                requires
                    p > 0,
            ;
            return total == 0;
        }
        assert((n - 1) * p <= n * p) by (nonlinear_arith)
            requires
                n >= 1,
                p >= 0,
        ;
        let lower = (n - 1) * p;
        lower < t && t <= upper
    }

    /// The length of the piece with this index; `None` when there is no such
    /// piece or it would start behind the end of the content.
    pub fn piece_size(&self, index: usize) -> (res: Option<usize>)
        ensures
            match res {
                Some(size) => index < self@.pieces.len() && size == piece_size(self@, index as int)
                    && self@.plength * index <= total_length(self@.layout) <= usize::MAX,
                None => index >= self@.pieces.len() || self@.plength * index > total_length(
                    self@.layout,
                ) || total_length(self@.layout) > usize::MAX,
            },
    {
        if index >= self.pieces.len() {
            return None;
        }
        let total = match self.layout.total_length() {
            Some(total) => total,
            None => {
                return None;
            },
        };
        match self.plength.checked_mul(index) {
            None => None,
            Some(offset) => {
                if offset > total {
                    None
                } else if self.plength <= total - offset {
                    Some(self.plength)
                } else {
                    Some(total - offset)
                }
            },
        }
    }
}

} // verus!
