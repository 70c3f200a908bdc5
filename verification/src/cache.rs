//! The keyed cache: where an entry lives, and what `get` and `set` do with
//! each answer of the storage and of the codec.
//!
//! The cache itself touches no storage. `get` and `set` are driven step by
//! step: each call takes what the last requested action brought and returns the
//! next action, until it returns `Done`.

use vstd::prelude::*;
use vstd::string::*;

verus! {

/// Why a cache operation failed.
#[derive(Clone, Copy, Debug, PartialEq, Eq, Structural)]
pub enum CacheError {
    /// The entry exists but could not be read, or the namespace could not be
    /// created, or the entry could not be written.
    Io,
    /// The value could not be encoded.
    Serialization,
    /// The stored text does not have the shape of a value.
    Deserialization,
}

/// What the surroundings report to `Cache::get`.
pub enum GetEvent<T> {
    /// Nothing yet: the lookup starts.
    Begin,
    /// Whether an entry exists at the probed path.
    Probed { exists: bool },
    /// The text of the entry, or `None` if it could not be read.
    Read(Option<String>),
    /// The decoded value, or `None` if the text could not be decoded.
    Decoded(Option<T>),
}

/// What `Cache::get` asks for next.
pub enum GetAction<T> {
    /// Find out whether an entry exists at `path`.
    Probe { path: String },
    /// Read the entry at `path`.
    Read { path: String },
    /// Decode `contents`.
    Decode { contents: String },
    /// The lookup is over.
    Done(Result<Option<T>, CacheError>),
}

/// What the surroundings report to `Cache::set`.
pub enum SetEvent {
    /// Nothing yet: the write starts.
    Begin,
    /// Whether the namespace directory exists now.
    DirectoryReady(bool),
    /// The encoded value, or `None` if it could not be encoded.
    Encoded(Option<String>),
    /// Whether the entry was written.
    Written(bool),
}

/// What `Cache::set` asks for next.
pub enum SetAction {
    /// Create `directory`, and what lies above it, unless it exists.
    CreateDirectory { directory: String },
    /// Encode the value.
    Encode,
    /// Replace the entry at `path` by `contents`.
    Write { path: String, contents: String },
    /// The write is over.
    Done(Result<(), CacheError>),
}

/// One namespace of the cache.
#[derive(Debug)]
pub struct Cache {
    directory: String,
}

/// The directory of the namespace `tag`.
pub open spec fn namespace_directory(tag: Seq<char>) -> Seq<char> {
    ".cache/"@ + tag
}

/// The path of the entry `id` in `directory`: a file named after the key, with
/// the extension of the serialization format.
pub open spec fn entry_path(directory: Seq<char>, id: Seq<char>) -> Seq<char> {
    directory + "/"@ + id + ".json"@
}

/// What `get` answers to `event`, for the entry at `path`.
pub open spec fn get_step<T>(path: Seq<char>, event: GetEvent<T>, action: GetAction<T>) -> bool {
    match event {
        GetEvent::Begin => action matches GetAction::Probe { path: probed } && probed@ == path,
        GetEvent::Probed { exists: false } => action == GetAction::<T>::Done(Ok(None)),
        GetEvent::Probed { exists: true } => action matches GetAction::Read { path: read } && read@
            == path,
        GetEvent::Read(None) => action == GetAction::<T>::Done(Err(CacheError::Io)),
        GetEvent::Read(Some(text)) => action == (GetAction::<T>::Decode { contents: text }),
        GetEvent::Decoded(None) => action == GetAction::<T>::Done(
            Err(CacheError::Deserialization),
        ),
        GetEvent::Decoded(Some(value)) => action == GetAction::Done(Ok(Some(value))),
    }
}

/// What `set` answers to `event`, for the entry at `path` in `directory`.
pub open spec fn set_step(
    directory: Seq<char>,
    path: Seq<char>,
    event: SetEvent,
    action: SetAction,
) -> bool {
    match event {
        SetEvent::Begin => action matches SetAction::CreateDirectory { directory: wanted }
            && wanted@ == directory,
        SetEvent::DirectoryReady(false) => action == SetAction::Done(Err(CacheError::Io)),
        SetEvent::DirectoryReady(true) => action == SetAction::Encode,
        SetEvent::Encoded(None) => action == SetAction::Done(Err(CacheError::Serialization)),
        SetEvent::Encoded(Some(text)) => action matches SetAction::Write { path: target, contents }
            && target@ == path && contents == text,
        SetEvent::Written(false) => action == SetAction::Done(Err(CacheError::Io)),
        SetEvent::Written(true) => action == SetAction::Done(Ok(())),
    }
}

impl Cache {
    /// The directory in which the entries of this namespace live.
    pub closed spec fn directory(&self) -> Seq<char> {
        self.directory@
    }

    /// The cache of the namespace `tag`. Nothing is created until the first
    /// write.
    pub fn new(tag: &str) -> (cache: Cache)
        ensures
            cache.directory() == namespace_directory(tag@),
    {
        let mut directory = String::from_str(".cache/");
        directory.append(tag);
        Cache { directory }
    }

    /// The path of the entry `id`.
    pub fn cache_file_path(&self, id: &str) -> (path: String)
        ensures
            path@ == entry_path(self.directory(), id@),
    {
        let mut path = self.directory.clone();
        path.append("/");
        path.append(id);
        path.append(".json");
        path
    }

    /// One step of a lookup of the entry `id`. A missing entry ends the lookup
    /// with "absent"; an entry that cannot be read or decoded ends it with the
    /// error; nothing is ever created.
    pub fn get<T>(&self, id: &str, event: GetEvent<T>) -> (action: GetAction<T>)
        ensures
            get_step(entry_path(self.directory(), id@), event, action),
    {
        match event {
            GetEvent::Begin => GetAction::Probe { path: self.cache_file_path(id) },
            GetEvent::Probed { exists } => {
                if exists {
                    GetAction::Read { path: self.cache_file_path(id) }
                } else {
                    GetAction::Done(Ok(None))
                }
            },
            GetEvent::Read(None) => GetAction::Done(Err(CacheError::Io)),
            GetEvent::Read(Some(text)) => GetAction::Decode { contents: text },
            GetEvent::Decoded(None) => GetAction::Done(Err(CacheError::Deserialization)),
            GetEvent::Decoded(Some(value)) => GetAction::Done(Ok(Some(value))),
        }
    }

    /// One step of a write of the entry `id`: the namespace directory first,
    /// then the encoding, then the entry as a whole.
    pub fn set(&self, id: &str, event: SetEvent) -> (action: SetAction)
        ensures
            set_step(self.directory(), entry_path(self.directory(), id@), event, action),
    {
        match event {
            SetEvent::Begin => SetAction::CreateDirectory { directory: self.directory.clone() },
            SetEvent::DirectoryReady(ready) => {
                if ready {
                    SetAction::Encode
                } else {
                    SetAction::Done(Err(CacheError::Io))
                }
            },
            SetEvent::Encoded(None) => SetAction::Done(Err(CacheError::Serialization)),
            SetEvent::Encoded(Some(text)) => SetAction::Write {
                path: self.cache_file_path(id),
                contents: text,
            },
            SetEvent::Written(written) => {
                if written {
                    SetAction::Done(Ok(()))
                } else {
                    SetAction::Done(Err(CacheError::Io))
                }
            },
        }
    }
}

/// Within one namespace, two keys share an entry only if they are the same
/// key: for each key at most one value is current.
pub proof fn lemma_entry_path_injective(directory: Seq<char>, first: Seq<char>, second: Seq<char>)
    requires
        entry_path(directory, first) == entry_path(directory, second),
    ensures
        first == second,
{
    let head = directory + "/"@;
    let tail = ".json"@;
    let a = entry_path(directory, first);
    let b = entry_path(directory, second);
    assert(a.len() == head.len() + first.len() + tail.len());
    assert(b.len() == head.len() + second.len() + tail.len());
    assert(first.len() == second.len());
    assert forall|k: int| 0 <= k < first.len() implies first[k] == second[k] by {
        assert(a[head.len() + k] == first[k]);
        assert(b[head.len() + k] == second[k]);
    }
    assert(first =~= second);
}

/// Whether a key holds no path separator.
pub open spec fn is_plain_key(id: Seq<char>) -> bool {
    forall|k: int| 0 <= k < id.len() ==> id[k] != '/'
}

proof fn lemma_separator_after_directory(directory: Seq<char>, id: Seq<char>, at: int)
    requires
        is_plain_key(id),
        0 <= at < entry_path(directory, id).len(),
        entry_path(directory, id)[at] == '/',
    ensures
        at <= directory.len(),
{
    reveal_strlit("/");
    reveal_strlit(".json");
    let path = entry_path(directory, id);
    if at > directory.len() {
        let within = at - directory.len() - 1;
        if within < id.len() {
            assert(path[at] == id[within]);
        } else {
            assert(path[at] == ".json"@[within - id.len()]);
        }
    }
}

/// Tag and key together identify an entry: as long as keys hold no path
/// separator, two entries share a path only if they have the same tag and the
/// same key.
pub proof fn lemma_entry_identified_by_tag_and_key(
    first_tag: Seq<char>,
    first: Seq<char>,
    second_tag: Seq<char>,
    second: Seq<char>,
)
    requires
        is_plain_key(first),
        is_plain_key(second),
        entry_path(namespace_directory(first_tag), first) == entry_path(
            namespace_directory(second_tag),
            second,
        ),
    ensures
        first_tag == second_tag,
        first == second,
{
    reveal_strlit("/");
    reveal_strlit(".json");
    let a = namespace_directory(first_tag);
    let b = namespace_directory(second_tag);
    let path = entry_path(a, first);
    assert(path[a.len() as int] == '/');
    assert(entry_path(b, second)[b.len() as int] == '/');
    lemma_separator_after_directory(a, first, b.len() as int);
    lemma_separator_after_directory(b, second, a.len() as int);
    assert(a.len() == b.len());
    assert forall|k: int| 0 <= k < a.len() implies a[k] == b[k] by {
        assert(path[k] == a[k]);
        assert(entry_path(b, second)[k] == b[k]);
    }
    assert(a =~= b);
    lemma_entry_path_injective(a, first, second);
    let head = ".cache/"@;
    assert(first_tag.len() == second_tag.len());
    assert forall|k: int| 0 <= k < first_tag.len() implies first_tag[k] == second_tag[k] by {
        assert(a[head.len() + k] == first_tag[k]);
        assert(b[head.len() + k] == second_tag[k]);
    }
    assert(first_tag =~= second_tag);
}

/// A storage as the cache takes it to be: the text of each entry, by its path.
pub type Storage = Map<Seq<char>, Seq<char>>;

/// The storage after it has done what `action` asks: a write puts the text
/// in the place of whatever the path held; nothing else changes it.
pub open spec fn after_set(storage: Storage, action: SetAction) -> Storage {
    match action {
        SetAction::Write { path, contents } => storage.insert(path@, contents@),
        _ => storage,
    }
}

/// Whether `event` is what the storage answers to what `action` asks of it:
/// whether the probed entry exists, and the text of the entry to be read.
pub open spec fn answers<T>(storage: Storage, action: GetAction<T>, event: GetEvent<T>) -> bool {
    match action {
        GetAction::Probe { path } => event == (GetEvent::<T>::Probed {
            exists: storage.dom().contains(path@),
        }),
        GetAction::Read { path } => event matches GetEvent::Read(Some(text))
            && storage.dom().contains(path@) && text@ == storage[path@],
        _ => false,
    }
}

/// A lookup that follows a write under the same key finds the entry and
/// hands the text that was written to the decoder, whatever the storage held
/// before: the probe is answered with "exists", and the text read is the text
/// written.
pub proof fn lemma_get_after_set<T>(
    directory: Seq<char>,
    id: Seq<char>,
    before: Storage,
    text: String,
    write: SetAction,
    probe: GetAction<T>,
    probed: GetEvent<T>,
    read: GetAction<T>,
    found: GetEvent<T>,
    decode: GetAction<T>,
)
    requires
        set_step(directory, entry_path(directory, id), SetEvent::Encoded(Some(text)), write),
        get_step(entry_path(directory, id), GetEvent::<T>::Begin, probe),
        answers(after_set(before, write), probe, probed),
        get_step(entry_path(directory, id), probed, read),
        answers(after_set(before, write), read, found),
        get_step(entry_path(directory, id), found, decode),
    ensures
        decode matches GetAction::Decode { contents } && contents@ == text@,
{
}

/// A lookup of a key under which the storage holds nothing ends at once with
/// "absent", and not with an error.
pub proof fn lemma_get_of_missing_entry<T>(
    directory: Seq<char>,
    id: Seq<char>,
    storage: Storage,
    probe: GetAction<T>,
    probed: GetEvent<T>,
    done: GetAction<T>,
)
    requires
        !storage.dom().contains(entry_path(directory, id)),
        get_step(entry_path(directory, id), GetEvent::<T>::Begin, probe),
        answers(storage, probe, probed),
        get_step(entry_path(directory, id), probed, done),
    ensures
        done == GetAction::<T>::Done(Ok(None)),
{
}

/// A write under one key leaves the entry of every other key of the
/// namespace as it was.
pub proof fn lemma_set_keeps_other_entries(
    directory: Seq<char>,
    id: Seq<char>,
    other: Seq<char>,
    before: Storage,
    text: String,
    write: SetAction,
)
    requires
        id != other,
        set_step(directory, entry_path(directory, id), SetEvent::Encoded(Some(text)), write),
    ensures
        after_set(before, write).dom().contains(entry_path(directory, other))
            == before.dom().contains(entry_path(directory, other)),
        before.dom().contains(entry_path(directory, other)) ==> after_set(
            before,
            write,
        )[entry_path(directory, other)] == before[entry_path(directory, other)],
{
    if entry_path(directory, id) == entry_path(directory, other) {
        lemma_entry_path_injective(directory, id, other);
    }
}

} // verus!
