//! Listing the files of an NTFS volume: naming the volume, the listing pattern to ask
//! for, and the entries a listing of the volume's root, or of a directory, gives. The
//! listing itself is made by the caller, through the system's directory API.

use vstd::prelude::*;
use vstd::utf8::encode_utf8;
use crate::text::{chars_of, string_from_range, push_str, bytes_of, str_eq, path_join, joined_path};
use crate::error::io_error_text;

verus! {

/// Why listing a volume failed.
#[derive(Debug)]
pub enum MftError {
    OpenVolume(String),
    ReadMft(String),
    InvalidRecord(String),
    NotNtfs,
    Io(std::io::Error),
    WindowsApi(String),
}

impl From<std::io::Error> for MftError {
    fn from(e: std::io::Error) -> (r: MftError) {
        MftError::Io(e)
    }
}

impl vstd::std_specs::convert::FromSpecImpl<std::io::Error> for MftError {
    open spec fn obeys_from_spec() -> bool {
        true
    }

    open spec fn from_spec(e: std::io::Error) -> MftError {
        MftError::Io(e)
    }
}

/// The text shown for a listing error, for every kind but `Io`.
pub open spec fn mft_error_text(e: MftError) -> Seq<char> {
    match e {
        MftError::OpenVolume(m) => "Failed to open volume: "@ + m@,
        MftError::ReadMft(m) => "Failed to read MFT: "@ + m@,
        MftError::InvalidRecord(m) => "Invalid MFT record: "@ + m@,
        MftError::NotNtfs => "Volume is not NTFS"@,
        MftError::Io(_) => "IO error: "@,
        MftError::WindowsApi(m) => "Windows API error: "@ + m@,
    }
}

impl MftError {
    /// The text shown for the error (for an I/O error, `IO error: ` and the operating
    /// system's text of it).
    pub fn message(&self) -> (r: String)
        ensures
            !(self is Io) ==> r@ == mft_error_text(*self),
            self is Io ==> r@.take(10) == mft_error_text(*self) && r@.len() >= 10,
    {
        let (prefix, detail) = match self {
            MftError::OpenVolume(m) => ("Failed to open volume: ", m.clone()),
            MftError::ReadMft(m) => ("Failed to read MFT: ", m.clone()),
            MftError::InvalidRecord(m) => ("Invalid MFT record: ", m.clone()),
            MftError::NotNtfs => ("Volume is not NTFS", String::new()),
            MftError::Io(e) => ("IO error: ", io_error_text(e)),
            MftError::WindowsApi(m) => ("Windows API error: ", m.clone()),
        };
        let mut r = prefix.to_string();
        push_str(&mut r, detail.as_str());
        proof {
            reveal_strlit("IO error: ");
        }
        assert(r@.take(prefix@.len() as int) =~= prefix@);
        r
    }
}

/// One file or directory of a volume.
#[derive(Debug)]
pub struct MftFileEntry {
    pub path: String,
    pub name: String,
    pub size: u64,
    pub parent_seq: u64,
    pub is_directory: bool,
    pub modified: Option<std::time::SystemTime>,
}

impl Clone for MftFileEntry {
    fn clone(&self) -> (r: Self)
        ensures
            r.path@ == self.path@,
            r.name@ == self.name@,
            r.size == self.size,
            r.parent_seq == self.parent_seq,
            r.is_directory == self.is_directory,
            r.modified == self.modified,
    {
        MftFileEntry {
            path: self.path.clone(),
            name: self.name.clone(),
            size: self.size,
            parent_seq: self.parent_seq,
            is_directory: self.is_directory,
            modified: self.modified,
        }
    }
}

/// The value of an `MftFileEntry`.
pub struct MftFileEntryView {
    pub path: Seq<char>,
    pub name: Seq<char>,
    pub size: u64,
    pub parent_seq: u64,
    pub is_directory: bool,
    pub modified: Option<std::time::SystemTime>,
}

impl View for MftFileEntry {
    type V = MftFileEntryView;

    open spec fn view(&self) -> MftFileEntryView {
        MftFileEntryView {
            path: self.path@,
            name: self.name@,
            size: self.size,
            parent_seq: self.parent_seq,
            is_directory: self.is_directory,
            modified: self.modified,
        }
    }
}

/// One item a listing of a volume's root reports: its name, whether it is a directory
/// or a regular file, its size and its last-write time when known.
#[derive(Debug)]
pub struct ListedItem {
    pub name: String,
    pub is_directory: bool,
    pub is_file: bool,
    pub size: u64,
    pub modified: Option<std::time::SystemTime>,
}

/// A 64-bit file size given as its high and low 32-bit halves.
pub open spec fn size_from_halves(high: u32, low: u32) -> nat {
    high as nat * 4294967296 + low as nat
}

/// The size whose high and low 32-bit halves are given.
pub fn combined_size(high: u32, low: u32) -> (r: u64)
    ensures
        r == size_from_halves(high, low),
{
    let h: u64 = high as u64;
    let l: u64 = low as u64;
    h * 4294967296 + l
}

/// Whether a listed item becomes an entry: in fast mode every item but `.` and `..`;
/// in compatible mode the regular files.
pub open spec fn keeps_item(fast: bool, item: ListedItem) -> bool {
    if fast {
        item.name@ != "."@ && item.name@ != ".."@
    } else {
        item.is_file
    }
}

/// The entry a kept item becomes: its path is the volume, `:\` and its name; its
/// parent sequence number is 0; in compatible mode it is never a directory.
pub open spec fn item_entry(volume: Seq<char>, fast: bool, item: ListedItem) -> MftFileEntryView {
    MftFileEntryView {
        path: volume + ":\\"@ + item.name@,
        name: item.name@,
        size: item.size,
        parent_seq: 0,
        is_directory: fast && item.is_directory,
        modified: item.modified,
    }
}

/// The entries a listing gives, in the order listed.
pub open spec fn listing_entries(volume: Seq<char>, fast: bool, items: Seq<ListedItem>) -> Seq<MftFileEntryView>
    decreases items.len(),
{
    if items.len() == 0 {
        Seq::empty()
    } else {
        let prev = listing_entries(volume, fast, items.drop_last());
        if keeps_item(fast, items.last()) {
            prev.push(item_entry(volume, fast, items.last()))
        } else {
            prev
        }
    }
}

/// The entry an item of a directory listing becomes: its path is the directory's
/// joined with its name, its parent sequence number 0.
pub open spec fn path_item_entry(dir: Seq<char>, item: ListedItem) -> MftFileEntryView {
    MftFileEntryView {
        path: joined_path(dir, item.name@),
        name: item.name@,
        size: item.size,
        parent_seq: 0,
        is_directory: item.is_directory,
        modified: item.modified,
    }
}

/// The entries a directory listing gives: one per item but `.` and `..`, in the order
/// listed.
pub open spec fn path_listing_entries(dir: Seq<char>, items: Seq<ListedItem>) -> Seq<MftFileEntryView>
    decreases items.len(),
{
    if items.len() == 0 {
        Seq::empty()
    } else {
        let prev = path_listing_entries(dir, items.drop_last());
        if keeps_item(true, items.last()) {
            prev.push(path_item_entry(dir, items.last()))
        } else {
            prev
        }
    }
}

/// `s` without its trailing colons.
pub open spec fn without_trailing_colons(s: Seq<char>) -> Seq<char>
    decreases s.len(),
{
    if s.len() > 0 && s.last() == ':' {
        without_trailing_colons(s.drop_last())
    } else {
        s
    }
}

/// The volume a name denotes: its first character when the name has two bytes or
/// more (`C:` gives `C`), otherwise the name without trailing colons.
pub open spec fn volume_of(name: Seq<char>) -> Seq<char> {
    if encode_utf8(name).len() >= 2 {
        seq![name[0]]
    } else {
        without_trailing_colons(name)
    }
}

/// A reader of one volume's file listing.
pub struct MftReader {
    volume: String,
    use_fast_mode: bool,
}

impl MftReader {
    /// The volume read.
    pub closed spec fn volume_name(&self) -> Seq<char> {
        self.volume@
    }

    /// Whether the directory-listing API is used rather than a recursive walk.
    pub closed spec fn fast_mode(&self) -> bool {
        self.use_fast_mode
    }

    /// A reader of the volume that `volume` names (see `volume_of`), in fast mode.
    pub fn new(volume: &str) -> (r: Result<Self, MftError>)
        ensures
            r matches Ok(m) && m.volume_name() == volume_of(volume@) && m.fast_mode(),
    {
        let v = chars_of(volume);
        let ghost name = volume@;
        let vol = if bytes_of(volume).len() >= 2 {
            proof {
                if name.len() == 0 {
                    assert(encode_utf8(name) =~= Seq::<u8>::empty());
                }
            }
            let first = string_from_range(&v, 0, 1);
            assert(v@.subrange(0, 1) =~= seq![name[0]]);
            first
        } else {
            let mut end = v.len();
            assert(name.take(v@.len() as int) =~= name);
            while end > 0 && v[end - 1] == ':'
                invariant
                    end <= v@.len(),
                    v@ == name,
                    without_trailing_colons(name) == without_trailing_colons(name.take(end as int)),
                decreases end,
            {
                assert(name.take(end as int).drop_last() =~= name.take(end - 1));
                end = end - 1;
            }
            assert(v@.subrange(0, end as int) =~= name.take(end as int));
            string_from_range(&v, 0, end)
        };
        Ok(MftReader { volume: vol, use_fast_mode: true })
    }

    /// The same reader, with fast mode set as given.
    pub fn with_fast_mode(self, fast: bool) -> (r: Self)
        ensures
            r.volume_name() == self.volume_name(),
            r.fast_mode() == fast,
    {
        MftReader { volume: self.volume, use_fast_mode: fast }
    }

    /// The volume read.
    pub fn volume(&self) -> (r: &str)
        ensures
            r@ == self.volume_name(),
    {
        self.volume.as_str()
    }

    /// Lists the volume's files from the listing of its root (the one `listing_pattern`
    /// names), which the caller makes: the items, or the system's account of why the
    /// listing could not be opened. In fast mode a failed listing is the error
    /// `OpenVolume`, naming the pattern and the account; in compatible mode, where
    /// unreadable items are passed over, it gives no entries. A listing gives the
    /// entries of `entries_from_listing`.
    pub fn read_entries(&self, listing: Result<Vec<ListedItem>, String>) -> (r: Result<Vec<MftFileEntry>, MftError>)
        ensures
            match listing {
                Ok(items) => r matches Ok(v)
                    && v@.map_values(|e: MftFileEntry| e@) == listing_entries(self.volume_name(), self.fast_mode(), items@),
                Err(msg) => if self.fast_mode() {
                    r matches Err(MftError::OpenVolume(m))
                        && m@ == "Failed to open "@ + self.volume_name() + ":\\*"@ + ": "@ + msg@
                } else {
                    r matches Ok(v) && v@.len() == 0
                },
            },
    {
        match listing {
            Ok(items) => Ok(self.entries_from_listing(items)),
            Err(msg) => {
                if self.use_fast_mode {
                    let mut m = "Failed to open ".to_string();
                    let pattern = self.listing_pattern();
                    push_str(&mut m, pattern.as_str());
                    push_str(&mut m, ": ");
                    push_str(&mut m, msg.as_str());
                    assert(m@ =~= "Failed to open "@ + self.volume_name() + ":\\*"@ + ": "@ + msg@);
                    Err(MftError::OpenVolume(m))
                } else {
                    Ok(Vec::new())
                }
            },
        }
    }

    /// Lists the files of a directory from its listing, which the caller makes (`None`
    /// when the listing could not be opened, which gives no entries): every item but
    /// `.` and `..`, in the order listed, each at the directory's path joined with its
    /// name (see `path_listing_entries`).
    pub fn read_entries_from_path(&self, path: &str, listing: Option<Vec<ListedItem>>) -> (r: Result<Vec<MftFileEntry>, MftError>)
        ensures
            r matches Ok(v) && v@.map_values(|e: MftFileEntry| e@) == match listing {
                Some(items) => path_listing_entries(path@, items@),
                None => Seq::empty(),
            },
    {
        let items = match listing {
            Some(items) => items,
            None => {
                let r: Vec<MftFileEntry> = Vec::new();
                assert(r@.map_values(|e: MftFileEntry| e@) =~= Seq::<MftFileEntryView>::empty());
                return Ok(r);
            },
        };
        let mut r: Vec<MftFileEntry> = Vec::new();
        let mut i: usize = 0;
        while i < items.len()
            invariant
                i <= items@.len(),
                r@.map_values(|e: MftFileEntry| e@) == path_listing_entries(path@, items@.take(i as int)),
            decreases items@.len() - i,
        {
            assert(items@.take(i + 1).drop_last() =~= items@.take(i as int));
            assert(items@.take(i + 1).last() == items@[i as int]);
            let item = &items[i];
            if !str_eq(item.name.as_str(), ".") && !str_eq(item.name.as_str(), "..") {
                let ghost before = r@.map_values(|e: MftFileEntry| e@);
                r.push(MftFileEntry {
                    path: path_join(path, item.name.as_str()),
                    name: item.name.clone(),
                    size: item.size,
                    parent_seq: 0,
                    is_directory: item.is_directory,
                    modified: item.modified,
                });
                assert(r@.map_values(|e: MftFileEntry| e@) =~= before.push(path_item_entry(path@, *item)));
            }
            i = i + 1;
        }
        assert(items@.take(items@.len() as int) =~= items@);
        Ok(r)
    }

    /// The pattern a listing of the volume's root asks for: the volume and `:\*` in
    /// fast mode, the volume and `:\` in compatible mode.
    pub fn listing_pattern(&self) -> (r: String)
        ensures
            r@ == self.volume_name() + (if self.fast_mode() { ":\\*"@ } else { ":\\"@ }),
    {
        let mut r = self.volume.clone();
        if self.use_fast_mode {
            push_str(&mut r, ":\\*");
        } else {
            push_str(&mut r, ":\\");
        }
        r
    }

    /// The entries of a listing of the volume's root, in the order listed (see
    /// `listing_entries`).
    pub fn entries_from_listing(&self, items: Vec<ListedItem>) -> (r: Vec<MftFileEntry>)
        ensures
            r@.map_values(|e: MftFileEntry| e@) == listing_entries(self.volume_name(), self.fast_mode(), items@),
    {
        let mut prefix = self.volume.clone();
        push_str(&mut prefix, ":\\");
        let fast = self.use_fast_mode;
        let mut r: Vec<MftFileEntry> = Vec::new();
        let mut i: usize = 0;
        while i < items.len()
            invariant
                i <= items@.len(),
                prefix@ == self.volume_name() + ":\\"@,
                fast == self.fast_mode(),
                r@.map_values(|e: MftFileEntry| e@) == listing_entries(self.volume_name(), fast, items@.take(i as int)),
            decreases items@.len() - i,
        {
            assert(items@.take(i + 1).drop_last() =~= items@.take(i as int));
            assert(items@.take(i + 1).last() == items@[i as int]);
            let item = &items[i];
            let keep = if fast {
                !str_eq(item.name.as_str(), ".") && !str_eq(item.name.as_str(), "..")
            } else {
                item.is_file
            };
            if keep {
                let ghost before = r@.map_values(|e: MftFileEntry| e@);
                let mut path = prefix.clone();
                push_str(&mut path, item.name.as_str());
                r.push(MftFileEntry {
                    path,
                    name: item.name.clone(),
                    size: item.size,
                    parent_seq: 0,
                    is_directory: fast && item.is_directory,
                    modified: item.modified,
                });
                assert(r@.map_values(|e: MftFileEntry| e@) =~= before.push(item_entry(self.volume_name(), fast, *item)));
            }
            i = i + 1;
        }
        assert(items@.take(items@.len() as int) =~= items@);
        r
    }
}

} // verus!
