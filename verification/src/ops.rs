//! Operations on the files of an image: walking paths, listing directories and reading files.
use crate::errors::FxfsError;
use crate::object_record::ObjectDescriptor;
use crate::text::{
    components, decimal, decimal_text, path_components, right_align, right_aligned, texts,
};
use chrono::TimeZone;
use vstd::prelude::*;

verus! {

/// How the time of an entry is written.
pub const DATE_FMT: &'static str = "%b %d %Y %T+00";

/// The last second of the year 9999.
pub const LAST_SECOND: i64 = 253_402_300_799;

/// What `chrono` makes of a time in UTC, given in seconds since 1970 and nanoseconds, and a format; none if
/// it cannot represent the time.
pub uninterp spec fn utc_text(secs: i64, nanos: u32, format: Seq<char>) -> Option<Seq<char>>;

/// Writes a time in UTC with `chrono::TimeZone::timestamp_opt` and `chrono::DateTime::format`.
///
/// The text is what these two make of the arguments, which is a function of the arguments alone.  Any time
/// from 1970 up to the year 9999, with less than a second in nanoseconds, can be represented.
#[verifier::external_body]
fn format_utc(secs: i64, nanos: u32, format: &str) -> (text: Option<String>)
    requires
        format@ == DATE_FMT@,
    ensures
        match text {
            Some(text) => utc_text(secs, nanos, format@) == Some(text@),
            None => utc_text(secs, nanos, format@) is None,
        },
        0 <= secs <= LAST_SECOND && nanos < 1_000_000_000 ==> text is Some,
{
    chrono::Utc.timestamp_opt(secs, nanos).single().map(|time| time.format(format).to_string())
}

/// What `String::from_utf8_lossy` makes of some bytes.
pub uninterp spec fn lossy_text(bytes: Seq<u8>) -> Seq<char>;

/// Turns bytes into text with `String::from_utf8_lossy`, which replaces what is not valid UTF-8.
#[verifier::external_body]
fn from_utf8_lossy(bytes: &Vec<u8>) -> (text: String)
    ensures
        text@ == lossy_text(bytes@),
{
    String::from_utf8_lossy(bytes).into_owned()
}

/// An entry of a directory, as far as a listing shows it.
#[derive(Debug)]
pub enum ListEntry {
    /// A file with its size and the time of its last modification.
    File { size: u64, secs: u64, nanos: u32 },
    /// A directory.
    Directory,
    /// A link with what it points to; it is shown with the present time.
    Symlink { link: Vec<u8>, now_secs: i64, now_nanos: u32 },
}

/// The time that is shown with an entry.
pub open spec fn entry_time(entry: ListEntry) -> Option<Seq<char>> {
    match entry {
        ListEntry::File { secs, nanos, .. } => utc_text(secs as i64, nanos, DATE_FMT@),
        ListEntry::Directory => utc_text(0, 0, DATE_FMT@),
        ListEntry::Symlink { now_secs, now_nanos, .. } => utc_text(now_secs, now_nanos, DATE_FMT@),
    }
}

/// The line of a listing that shows an entry with the time `time`.
pub open spec fn line_of(entry: ListEntry, time: Seq<char>, name: Seq<char>) -> Seq<char> {
    match entry {
        ListEntry::File { size, .. } => "-rwx------    1 nobody   nogroup    "@ + right_aligned(
            decimal_text(size as nat),
            8,
        ) + " "@ + right_aligned(time, 12) + " "@ + name,
        ListEntry::Directory => "d---------    1 nobody   nogroup           0 "@ + right_aligned(
            time,
            12,
        ) + " "@ + name,
        ListEntry::Symlink { link, .. } => "l---------    1 nobody   nogroup           0 "@
            + right_aligned(time, 12) + " "@ + name + " -> "@ + lossy_text(link@),
    }
}

/// Returns the line of a listing that shows an entry with the time `time`.
pub fn format_line(entry: &ListEntry, time: &str, name: &str) -> (line: String)
    ensures
        line@ == line_of(*entry, time@, name@),
{
    match entry {
        ListEntry::File { size, .. } => {
            let mut line = "-rwx------    1 nobody   nogroup    ".to_owned();
            line.append(right_align(decimal(*size).as_str(), 8).as_str());
            line.append(" ");
            line.append(right_align(time, 12).as_str());
            line.append(" ");
            line.append(name);
            line
        },
        ListEntry::Directory => {
            let mut line = "d---------    1 nobody   nogroup           0 ".to_owned();
            line.append(right_align(time, 12).as_str());
            line.append(" ");
            line.append(name);
            line
        },
        ListEntry::Symlink { link, .. } => {
            let mut line = "l---------    1 nobody   nogroup           0 ".to_owned();
            line.append(right_align(time, 12).as_str());
            line.append(" ");
            line.append(name);
            line.append(" -> ");
            line.append(from_utf8_lossy(link).as_str());
            line
        },
    }
}

/// Returns the line of a listing that shows an entry, or none if its time cannot be represented.
pub fn print_ls(entry: &ListEntry, name: &str) -> (line: Option<String>)
    ensures
        match line {
            Some(line) => entry_time(*entry) is Some && line@ == line_of(
                *entry,
                entry_time(*entry)->0,
                name@,
            ),
            None => entry_time(*entry) is None,
        },
        *entry is Directory ==> line is Some,
        (*entry matches ListEntry::File { secs, nanos, .. } && secs <= LAST_SECOND && nanos
            < 1_000_000_000) ==> line is Some,
{
    let time = match entry {
        ListEntry::File { secs, nanos, .. } => format_utc(
            #[verifier::truncate] (*secs as i64),
            *nanos,
            DATE_FMT,
        ),
        ListEntry::Directory => format_utc(0, 0, DATE_FMT),
        ListEntry::Symlink { now_secs, now_nanos, .. } => format_utc(
            *now_secs,
            *now_nanos,
            DATE_FMT,
        ),
    };
    match time {
        Some(time) => Some(format_line(entry, time.as_str(), name)),
        None => None,
    }
}

/// Why an operation failed.
#[derive(Debug)]
pub enum OpsError {
    NotADirectory(String),
    NotFound(String),
    ObjectNotFound,
    ExpectedFile(ObjectDescriptor),
    FileNotFound(String),
    AlreadyExists(String),
    DoesNotExist(String),
}

impl OpsError {
    /// What the user is told.
    pub open spec fn spec_message(self) -> Seq<char> {
        match self {
            OpsError::NotADirectory(name) => "Not a directory: "@ + name@,
            OpsError::NotFound(name) => "Not found: "@ + name@,
            OpsError::ObjectNotFound => "Object not found."@,
            OpsError::ExpectedFile(descriptor) => "Expected File. Found "@ + descriptor_name(
                descriptor,
            ),
            OpsError::FileNotFound(path) => "File not found: "@ + path@,
            OpsError::AlreadyExists(name) => name@ + " already exists"@,
            OpsError::DoesNotExist(name) => name@ + " does not exist"@,
        }
    }

    /// Returns what the user is told.
    pub fn message(&self) -> (message: String)
        ensures
            message@ == self.spec_message(),
    {
        match self {
            OpsError::NotADirectory(name) => {
                let mut message = "Not a directory: ".to_owned();
                message.append(name.as_str());
                message
            },
            OpsError::NotFound(name) => {
                let mut message = "Not found: ".to_owned();
                message.append(name.as_str());
                message
            },
            OpsError::ObjectNotFound => "Object not found.".to_owned(),
            OpsError::ExpectedFile(descriptor) => {
                let mut message = "Expected File. Found ".to_owned();
                message.append(
                    match descriptor {
                        ObjectDescriptor::File => "File",
                        ObjectDescriptor::Directory => "Directory",
                        ObjectDescriptor::Volume => "Volume",
                        ObjectDescriptor::Symlink => "Symlink",
                    },
                );
                message
            },
            OpsError::FileNotFound(path) => {
                let mut message = "File not found: ".to_owned();
                message.append(path.as_str());
                message
            },
            OpsError::AlreadyExists(name) => {
                let mut message = name.clone();
                message.append(" already exists");
                message
            },
            OpsError::DoesNotExist(name) => {
                let mut message = name.clone();
                message.append(" does not exist");
                message
            },
        }
    }
}

/// The name of a kind of object.
pub open spec fn descriptor_name(descriptor: ObjectDescriptor) -> Seq<char> {
    match descriptor {
        ObjectDescriptor::File => "File"@,
        ObjectDescriptor::Directory => "Directory"@,
        ObjectDescriptor::Volume => "Volume"@,
        ObjectDescriptor::Symlink => "Symlink"@,
    }
}

/// A walk along a path, from directory to directory.
#[derive(Debug)]
pub struct Walk {
    names: Vec<String>,
    next: usize,
    dir: u64,
}

/// Where a walk is: the names that are left, and the directory in which the first of them is looked up.
pub struct WalkView {
    pub names: Seq<Seq<char>>,
    pub dir: u64,
}

impl View for Walk {
    type V = WalkView;

    closed spec fn view(&self) -> WalkView {
        WalkView { names: texts(self.names@).skip(self.next as int), dir: self.dir }
    }
}

impl Walk {
    pub closed spec fn wf(self) -> bool {
        self.next <= self.names@.len()
    }

    /// Starts to walk from the directory `root`.
    pub fn new(root: u64, path: &str) -> (walk: Self)
        ensures
            walk.wf(),
            walk@ == (WalkView { names: components(path@), dir: root }),
    {
        let names = path_components(path);
        let walk = Walk { names, next: 0, dir: root };
        assert(texts(walk.names@).skip(0) =~= components(path@));
        walk
    }

    /// Returns the name to look up, or none if the walk is over.
    pub fn name(&self) -> (name: Option<&str>)
        requires
            self.wf(),
        ensures
            match name {
                Some(name) => self@.names.len() > 0 && name@ == self@.names[0],
                None => self@.names.len() == 0,
            },
    {
        if self.next < self.names.len() {
            assert(texts(self.names@)[self.next as int] == self.names@[self.next as int]@);
            Some(self.names[self.next].as_str())
        } else {
            None
        }
    }

    /// Returns the directory in which the walk is.
    pub fn dir(&self) -> (dir: u64)
        ensures
            dir == self@.dir,
    {
        self.dir
    }

    /// Goes on with what was found under the name.
    pub fn step(&mut self, found: Option<(u64, ObjectDescriptor)>) -> (stepped: Result<
        (),
        OpsError,
    >)
        requires
            old(self).wf(),
            old(self)@.names.len() > 0,
        ensures
            final(self).wf(),
            match found {
                Some((object_id, ObjectDescriptor::Directory)) => {
                    &&& stepped is Ok
                    &&& final(self)@ == (WalkView {
                        names: old(self)@.names.skip(1),
                        dir: object_id,
                    })
                },
                Some(_) => {
                    &&& stepped matches Err(OpsError::NotADirectory(name))
                    &&& name@ == old(self)@.names[0]
                    &&& final(self)@ == old(self)@
                },
                None => {
                    &&& stepped matches Err(OpsError::NotFound(name))
                    &&& name@ == old(self)@.names[0]
                    &&& final(self)@ == old(self)@
                },
            },
    {
        let len: usize = self.names.len();
        assert(self.next < len);
        assert(texts(self.names@)[self.next as int] == self.names@[self.next as int]@);
        match found {
            Some((object_id, ObjectDescriptor::Directory)) => {
                self.dir = object_id;
                self.next = self.next + 1;
                assert(self@.names =~= old(self)@.names.skip(1));
                Ok(())
            },
            Some(_) => Err(OpsError::NotADirectory(self.names[self.next].clone())),
            None => Err(OpsError::NotFound(self.names[self.next].clone())),
        }
    }
}

/// Where a walk ends if each directory holds what `holds` says; none if there is no such directory.
pub open spec fn walked(
    names: Seq<Seq<char>>,
    dir: u64,
    holds: spec_fn(u64, Seq<char>) -> Option<(u64, ObjectDescriptor)>,
) -> Option<u64>
    decreases names.len(),
{
    if names.len() == 0 {
        Some(dir)
    } else {
        match holds(dir, names[0]) {
            Some((object_id, ObjectDescriptor::Directory)) => walked(names.skip(1), object_id, holds),
            _ => None,
        }
    }
}

/// A walk along a path and then along another ends where a walk along both ends.
pub proof fn lemma_walk_is_compositional(
    first: Seq<Seq<char>>,
    second: Seq<Seq<char>>,
    dir: u64,
    holds: spec_fn(u64, Seq<char>) -> Option<(u64, ObjectDescriptor)>,
)
    ensures
        walked(first + second, dir, holds) == (match walked(first, dir, holds) {
            Some(middle) => walked(second, middle, holds),
            None => None,
        }),
    decreases first.len(),
{
    if first.len() == 0 {
        assert(first + second =~= second);
    } else {
        assert((first + second).skip(1) =~= first.skip(1) + second);
        match holds(dir, first[0]) {
            Some((object_id, ObjectDescriptor::Directory)) => {
                lemma_walk_is_compositional(first.skip(1), second, object_id, holds);
            },
            _ => {},
        }
    }
}

/// Returns the object of the file to read, given what was found under its name.
pub fn file_to_read(found: Option<(u64, ObjectDescriptor)>, path: &str) -> (object_id: Result<
    u64,
    OpsError,
>)
    ensures
        match found {
            Some((id, ObjectDescriptor::File)) => object_id == Result::<u64, OpsError>::Ok(id),
            Some((id, descriptor)) => object_id == Result::<u64, OpsError>::Err(
                OpsError::ExpectedFile(descriptor),
            ),
            None => object_id matches Err(OpsError::FileNotFound(missing)) && missing@ == path@,
        },
{
    match found {
        Some((id, ObjectDescriptor::File)) => Ok(id),
        Some((_, descriptor)) => Err(OpsError::ExpectedFile(descriptor)),
        None => Err(OpsError::FileNotFound(path.to_owned())),
    }
}

/// Checks that the name of a new file or directory is free.
pub fn check_vacant(found: Option<(u64, ObjectDescriptor)>, name: &str) -> (vacant: Result<
    (),
    OpsError,
>)
    ensures
        match found {
            None => vacant is Ok,
            Some(_) => vacant matches Err(OpsError::AlreadyExists(taken)) && taken@ == name@,
        },
{
    match found {
        None => Ok(()),
        Some(_) => Err(OpsError::AlreadyExists(name.to_owned())),
    }
}

/// Checks that there is something to unlink.
pub fn check_unlink(found: Option<(u64, ObjectDescriptor)>) -> (check: Result<(), OpsError>)
    ensures
        match found {
            Some(_) => check is Ok,
            None => check == Result::<(), OpsError>::Err(OpsError::ObjectNotFound),
        },
{
    match found {
        Some(_) => Ok(()),
        None => Err(OpsError::ObjectNotFound),
    }
}

/// Returns the object of a file on which verity is to be enabled.
pub fn file_to_verify(found: Option<(u64, ObjectDescriptor)>, name: &str) -> (object_id: Result<
    u64,
    OpsError,
>)
    ensures
        match found {
            Some((id, _)) => object_id == Result::<u64, OpsError>::Ok(id),
            None => object_id matches Err(OpsError::DoesNotExist(missing)) && missing@ == name@,
        },
{
    match found {
        Some((id, _)) => Ok(id),
        None => Err(OpsError::DoesNotExist(name.to_owned())),
    }
}

/// Returns the object of a node that must exist.
pub fn node_to_change(found: Option<(u64, ObjectDescriptor)>) -> (object_id: Result<u64, FxfsError>)
    ensures
        object_id == (match found {
            Some((id, _)) => Ok::<u64, FxfsError>(id),
            None => Err(FxfsError::NotFound),
        }),
{
    match found {
        Some((id, _)) => Ok(id),
        None => Err(FxfsError::NotFound),
    }
}

/// A file that is read block by block.
#[derive(Debug)]
pub struct FileReader {
    pub block_size: usize,
    pub out: Vec<u8>,
}

impl FileReader {
    pub fn new(block_size: usize) -> (reader: Self)
        ensures
            reader.block_size == block_size,
            reader.out@ == Seq::<u8>::empty(),
    {
        FileReader { block_size, out: Vec::new() }
    }

    /// Takes what was read at the end of what is there already.  Returns whether there may be more: if not
    /// the whole block was filled, the file is at its end.
    pub fn push(&mut self, bytes: &Vec<u8>) -> (more: bool)
        ensures
            final(self).block_size == old(self).block_size,
            final(self).out@ == old(self).out@ + bytes@,
            more == (bytes@.len() == old(self).block_size),
    {
        let len: usize = bytes.len();
        let ghost before = self.out@;
        let mut i: usize = 0;
        while i < len
            invariant
                i <= len,
                len == bytes@.len(),
                self.block_size == old(self).block_size,
                self.out@ == before + bytes@.take(i as int),
            decreases len - i,
        {
            self.out.push(bytes[i]);
            i += 1;
            assert(self.out@ =~= before + bytes@.take(i as int));
        }
        assert(bytes@.take(len as int) =~= bytes@);
        len == self.block_size
    }
}

/// What is read of `content` at `offset` into a block.
pub open spec fn block_at(content: Seq<u8>, offset: int, block_size: int) -> Seq<u8> {
    if offset + block_size <= content.len() {
        content.subrange(offset, offset + block_size)
    } else {
        content.subrange(offset, content.len() as int)
    }
}

/// What is gathered by reading `content` block by block from `offset` on, until a block is not full.
pub open spec fn gathered(content: Seq<u8>, offset: int, block_size: int) -> Seq<u8>
    decreases content.len() - offset,
{
    if offset < 0 || offset > content.len() || block_size <= 0 {
        Seq::empty()
    } else {
        let block = block_at(content, offset, block_size);
        if block.len() == block_size {
            block + gathered(content, offset + block_size, block_size)
        } else {
            block
        }
    }
}

/// Reading a file block by block gives all of its content.
pub proof fn lemma_whole_file_is_read(content: Seq<u8>, offset: int, block_size: int)
    requires
        0 <= offset <= content.len(),
        block_size > 0,
    ensures
        gathered(content, offset, block_size) == content.subrange(offset, content.len() as int),
    decreases content.len() - offset,
{
    let block = block_at(content, offset, block_size);
    if block.len() == block_size {
        lemma_whole_file_is_read(content, offset + block_size, block_size);
        assert(content.subrange(offset, content.len() as int) =~= block + content.subrange(
            offset + block_size,
            content.len() as int,
        ));
    }
}

/// A file is shown with the time of its last modification, whatever its size is, a link with the present time,
/// whatever it points to, and a directory with the start of 1970.
pub proof fn lemma_entries_show_their_time(
    size: u64,
    secs: u64,
    nanos: u32,
    link: Vec<u8>,
    now_secs: i64,
)
    ensures
        entry_time(ListEntry::File { size, secs, nanos }) == utc_text(
            secs as i64,
            nanos,
            "%b %d %Y %T+00"@,
        ),
        entry_time(ListEntry::Symlink { link, now_secs, now_nanos: nanos }) == utc_text(
            now_secs,
            nanos,
            "%b %d %Y %T+00"@,
        ),
        entry_time(ListEntry::Directory) == entry_time(ListEntry::File { size, secs: 0, nanos: 0 }),
        secs == now_secs ==> entry_time(ListEntry::File { size, secs, nanos }) == entry_time(
            ListEntry::Symlink { link, now_secs, now_nanos: nanos },
        ),
{
}

/// The line of an entry begins with a letter for its kind, and ends in its name; that of a link goes on with what it
/// points to.
pub proof fn lemma_line_tells_kind_and_name(entry: ListEntry, time: Seq<char>, name: Seq<char>)
    ensures
        ({
            let line = line_of(entry, time, name);
            &&& entry is File <==> line[0] == '-'
            &&& entry is Directory <==> line[0] == 'd'
            &&& entry is Symlink <==> line[0] == 'l'
            &&& !(entry is Symlink) ==> name.len() <= line.len() && line.skip(line.len() - name.len())
                == name
            &&& entry matches ListEntry::Symlink { link, .. } ==> {
                let tail = name + seq![' ', '-', '>', ' '] + lossy_text(link@);
                tail.len() <= line.len() && line.skip(line.len() - tail.len()) == tail
            }
        }),
{
    let line = line_of(entry, time, name);
    reveal_strlit("-rwx------    1 nobody   nogroup    ");
    reveal_strlit("d---------    1 nobody   nogroup           0 ");
    reveal_strlit("l---------    1 nobody   nogroup           0 ");
    reveal_strlit(" -> ");
    reveal_strlit(" ");
    if entry is Symlink {
        let tail = name + seq![' ', '-', '>', ' '] + lossy_text(entry->link@);
        assert(" -> "@ =~= seq![' ', '-', '>', ' ']);
        assert(line.skip(line.len() - tail.len()) =~= tail);
    } else {
        assert(line.skip(line.len() - name.len()) =~= name);
    }
}

/// The line of a file shows its size up to the column in which the time begins, and its time up to the name.
pub proof fn lemma_line_tells_the_size(size: u64, secs: u64, nanos: u32, time: Seq<char>, name: Seq<char>)
    ensures
        ({
            let line = line_of(ListEntry::File { size, secs, nanos }, time, name);
            let digits = decimal_text(size as nat);
            let end = line.len() - name.len() - 1 - (if time.len() > 12 {
                time.len()
            } else {
                12
            }) - 1;
            &&& line.subrange(end - digits.len(), end) == digits
            &&& line.subrange(line.len() - name.len() - 1 - time.len(), line.len() - name.len() - 1) == time
            &&& line[end] == ' '
            &&& line[line.len() - name.len() - 1] == ' '
        }),
{
    let line = line_of(ListEntry::File { size, secs, nanos }, time, name);
    let digits = decimal_text(size as nat);
    reveal_strlit("-rwx------    1 nobody   nogroup    ");
    reveal_strlit(" ");
    let width: int = if time.len() > 12 {
        time.len() as int
    } else {
        12
    };
    let end = line.len() - name.len() - 1 - width - 1;
    assert(line.subrange(end - digits.len(), end) =~= digits);
    assert(line.subrange(line.len() - name.len() - 1 - time.len(), line.len() - name.len() - 1) =~= time);
}

/// The line of a directory or a link shows its time right before the name.
pub proof fn lemma_line_tells_the_time(entry: ListEntry, time: Seq<char>, name: Seq<char>)
    requires
        !(entry is File),
    ensures
        ({
            let line = line_of(entry, time, name);
            let end = line.len() - name.len() - 1 - (match entry {
                ListEntry::Symlink { link, .. } => 4 + lossy_text(link@).len(),
                _ => 0,
            });
            &&& line.subrange(end - time.len(), end) == time
            &&& line[end] == ' '
        }),
{
    let line = line_of(entry, time, name);
    reveal_strlit("d---------    1 nobody   nogroup           0 ");
    reveal_strlit("l---------    1 nobody   nogroup           0 ");
    reveal_strlit(" -> ");
    reveal_strlit(" ");
    let end = line.len() - name.len() - 1 - (match entry {
        ListEntry::Symlink { link, .. } => 4 + lossy_text(link@).len(),
        _ => 0,
    });
    assert(line.subrange(end - time.len(), end) =~= time);
}

/// What the user is told names the file or directory that it is about: at the end, or at the start where the message
/// says of it that it exists or does not.
pub proof fn lemma_message_names_what_it_is_about(name: String)
    ensures
        ({
            let message = OpsError::NotADirectory(name).spec_message();
            message.len() == 17 + name@.len() && message.skip(17) == name@
        }),
        ({
            let message = OpsError::NotFound(name).spec_message();
            message.len() == 11 + name@.len() && message.skip(11) == name@
        }),
        ({
            let message = OpsError::FileNotFound(name).spec_message();
            message.len() == 16 + name@.len() && message.skip(16) == name@
        }),
        ({
            let message = OpsError::AlreadyExists(name).spec_message();
            message.len() == name@.len() + 15 && message.take(name@.len() as int) == name@
        }),
        ({
            let message = OpsError::DoesNotExist(name).spec_message();
            message.len() == name@.len() + 15 && message.take(name@.len() as int) == name@
        }),
        OpsError::AlreadyExists(name).spec_message() != OpsError::DoesNotExist(name).spec_message(),
{
    reveal_strlit("Not a directory: ");
    reveal_strlit("Not found: ");
    reveal_strlit("File not found: ");
    reveal_strlit(" already exists");
    reveal_strlit(" does not exist");
    assert(OpsError::NotADirectory(name).spec_message().skip(17) =~= name@);
    assert(OpsError::NotFound(name).spec_message().skip(11) =~= name@);
    assert(OpsError::FileNotFound(name).spec_message().skip(16) =~= name@);
    assert(OpsError::AlreadyExists(name).spec_message().take(name@.len() as int) =~= name@);
    assert(OpsError::DoesNotExist(name).spec_message().take(name@.len() as int) =~= name@);
    let at = name@.len() as int + 1;
    assert(OpsError::AlreadyExists(name).spec_message()[at] == 'a');
    assert(OpsError::DoesNotExist(name).spec_message()[at] == 'd');
}

/// The user is told what was found in place of a file, and no two kinds of objects go by the same name.
pub proof fn lemma_message_names_what_was_found(a: ObjectDescriptor, b: ObjectDescriptor)
    ensures
        ({
            let message = OpsError::ExpectedFile(a).spec_message();
            message.len() == 21 + descriptor_name(a).len() && message.skip(21) == descriptor_name(a)
        }),
        descriptor_name(a)[0] == (match a {
            ObjectDescriptor::File => 'F',
            ObjectDescriptor::Directory => 'D',
            ObjectDescriptor::Volume => 'V',
            ObjectDescriptor::Symlink => 'S',
        }),
        a != b ==> descriptor_name(a) != descriptor_name(b),
        a != b ==> OpsError::ExpectedFile(a).spec_message() != OpsError::ExpectedFile(b).spec_message(),
{
    reveal_strlit("Expected File. Found ");
    reveal_strlit("File");
    reveal_strlit("Directory");
    reveal_strlit("Volume");
    reveal_strlit("Symlink");
    let message = OpsError::ExpectedFile(a).spec_message();
    let other = OpsError::ExpectedFile(b).spec_message();
    assert(message.skip(21) =~= descriptor_name(a));
    assert(other.skip(21) =~= descriptor_name(b));
}

/// A walk ends where it began if no names are left; it goes from each directory to one that is in it, and comes to
/// nothing where there is none of that name.
pub proof fn lemma_walk_goes_from_directory_to_directory(
    names: Seq<Seq<char>>,
    name: Seq<char>,
    dir: u64,
    holds: spec_fn(u64, Seq<char>) -> Option<(u64, ObjectDescriptor)>,
)
    ensures
        walked(Seq::empty(), dir, holds) == Some(dir),
        walked(names.push(name), dir, holds) == (match walked(names, dir, holds) {
            Some(parent) => if holds(parent, name) matches Some((child, descriptor)) && descriptor
                == ObjectDescriptor::Directory {
                Some((holds(parent, name)->0).0)
            } else {
                None
            },
            None => None,
        }),
{
    lemma_walk_is_compositional(names, seq![name], dir, holds);
    assert(names.push(name) =~= names + seq![name]);
    assert forall|parent: u64| #[trigger] walked(seq![name], parent, holds) == (match holds(parent, name) {
        Some((child, ObjectDescriptor::Directory)) => Some(child),
        _ => None,
    }) by {
        assert(seq![name].skip(1) =~= Seq::<Seq<char>>::empty());
        reveal_with_fuel(walked, 2);
    }
}

/// A block that is read holds what stands in the file from its offset on; only the last one is not full.
pub proof fn lemma_block_holds_what_stands_there(
    content: Seq<u8>,
    offset: int,
    block_size: int,
    index: int,
)
    requires
        0 <= offset <= content.len(),
        block_size > 0,
    ensures
        block_at(content, offset, block_size).len() <= block_size,
        block_at(content, offset, block_size).len() == block_size || offset + block_at(
            content,
            offset,
            block_size,
        ).len() == content.len(),
        0 <= index < block_at(content, offset, block_size).len() ==> block_at(content, offset, block_size)[index]
            == content[offset + index],
{
}

} // verus!
