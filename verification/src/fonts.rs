use vstd::prelude::*;
use vstd::string::StringExecFns;
use crate::paths::font_path;
use crate::paths::font_path_spec;

verus! {

/// One loaded font resource at one pixel size. The engine that parsed the
/// font file owns the resource itself; a `Font` carries the handle that
/// identifies it, so two `Font`s are the same resource exactly when their
/// handles are equal. Immutable once constructed.
#[derive(Clone, Copy, PartialEq, Eq, Structural, Debug)]
pub struct Font {
    handle: u64,
}

impl View for Font {
    type V = u64;

    closed spec fn view(&self) -> u64 {
        self.handle
    }
}

impl Font {
    /// Wraps the handle of a freshly loaded engine resource.
    pub fn new(handle: u64) -> (font: Font)
        ensures
            font@ == handle,
    {
        Font { handle }
    }

    /// The handle of the engine resource this font stands for.
    pub fn handle(&self) -> (handle: u64)
        ensures
            handle == self@,
    {
        self.handle
    }
}

/// The error a failed font load surfaces: one opaque value whose message
/// names the path that was tried and carries the engine's own cause.
#[derive(Debug)]
pub struct FontError {
    message: String,
}

impl View for FontError {
    type V = Seq<char>;

    closed spec fn view(&self) -> Seq<char> {
        self.message@
    }
}

impl FontError {
    /// The human-readable cause chain: the path that failed, then the
    /// engine's reason.
    pub fn message(&self) -> (message: &str)
        ensures
            message@ == self@,
    {
        self.message.as_str()
    }
}

/// One cache slot: the canonical path, the pixel size, and the font that
/// was loaded for that key.
struct FontEntry {
    path: String,
    size: u16,
    font: Font,
}

spec fn entry_key(entry: FontEntry) -> (Seq<char>, u16) {
    (entry.path@, entry.size)
}

spec fn unique_keys(entries: Seq<FontEntry>) -> bool {
    forall|i: int, j: int|
        0 <= i < j < entries.len() ==> entry_key(entries[i]) != entry_key(entries[j])
}

spec fn map_of(entries: Seq<FontEntry>) -> Map<(Seq<char>, u16), Font>
    decreases entries.len(),
{
    if entries.len() == 0 {
        Map::empty()
    } else {
        map_of(entries.drop_last()).insert(entry_key(entries.last()), entries.last().font)
    }
}

proof fn lemma_map_of_contains(entries: Seq<FontEntry>, key: (Seq<char>, u16))
    ensures
        map_of(entries).contains_key(key) <==> exists|i: int|
            0 <= i < entries.len() && entry_key(entries[i]) == key,
    decreases entries.len(),
{
    if entries.len() > 0 {
        let prefix = entries.drop_last();
        lemma_map_of_contains(prefix, key);
        assert(forall|k: int| 0 <= k < prefix.len() ==> prefix[k] == entries[k]);
        if map_of(entries).contains_key(key) {
            if key == entry_key(entries.last()) {
                assert(entry_key(entries[entries.len() - 1]) == key);
            } else {
                let i = choose|i: int| 0 <= i < prefix.len() && entry_key(prefix[i]) == key;
                assert(entry_key(entries[i]) == key);
            }
        }
        if exists|i: int| 0 <= i < entries.len() && entry_key(entries[i]) == key {
            let i = choose|i: int| 0 <= i < entries.len() && entry_key(entries[i]) == key;
            if i < entries.len() - 1 {
                assert(entry_key(prefix[i]) == key);
            }
        }
    }
}

proof fn lemma_map_of_index(entries: Seq<FontEntry>, i: int)
    requires
        unique_keys(entries),
        0 <= i < entries.len(),
    ensures
        map_of(entries).contains_key(entry_key(entries[i])),
        map_of(entries)[entry_key(entries[i])] == entries[i].font,
    decreases entries.len(),
{
    let prefix = entries.drop_last();
    assert(forall|k: int| 0 <= k < prefix.len() ==> prefix[k] == entries[k]);
    if i < entries.len() - 1 {
        assert(unique_keys(prefix));
        lemma_map_of_index(prefix, i);
        assert(entry_key(entries[i]) != entry_key(entries[entries.len() - 1]));
    }
}

proof fn lemma_map_of_push(entries: Seq<FontEntry>, entry: FontEntry)
    ensures
        map_of(entries.push(entry)) == map_of(entries).insert(entry_key(entry), entry.font),
{
    assert(entries.push(entry).drop_last() =~= entries);
    assert(entries.push(entry).last() == entry);
}

/// A lazily filled, memoizing cache of loaded fonts, keyed by the canonical
/// asset path joined with the pixel size. The cache only grows: entries are
/// never evicted, and a key, once filled, always answers with the font it
/// was filled with.
pub struct FontRepository {
    entries: Vec<FontEntry>,
}

impl View for FontRepository {
    type V = Map<(Seq<char>, u16), Font>;

    closed spec fn view(&self) -> Map<(Seq<char>, u16), Font> {
        map_of(self.entries@)
    }
}

impl FontRepository {
    /// Cache keys are pairwise distinct, so each key owns exactly one slot.
    pub closed spec fn wf(self) -> bool {
        unique_keys(self.entries@)
    }

    /// An empty repository: no key has been loaded yet.
    pub fn new() -> (repo: FontRepository)
        ensures
            repo.wf(),
            repo@ == Map::<(Seq<char>, u16), Font>::empty(),
    {
        FontRepository { entries: Vec::new() }
    }

    /// Pure cache lookup for `(folder, name, size)`. A hit returns the very
    /// font the cache holds for that key; a miss returns `None`, and the
    /// caller must have the engine load the canonical path before calling
    /// [`Self::complete_load`]. Takes `&self`: a hit allocates nothing and
    /// asks nothing of the outside world.
    pub fn get_font(&self, font_folder: &str, font_name: &str, size: u16) -> (cached: Option<
        &Font,
    >)
        requires
            self.wf(),
        ensures
            match cached {
                Some(font) => self@.contains_key((font_path_spec(font_folder@, font_name@), size))
                    && *font == self@[(font_path_spec(font_folder@, font_name@), size)],
                None => !self@.contains_key((font_path_spec(font_folder@, font_name@), size)),
            },
    {
        let path = font_path(font_folder, font_name);
        let mut i: usize = 0;
        while i < self.entries.len()
            invariant
                self.wf(),
                i <= self.entries.len(),
                path@ == font_path_spec(font_folder@, font_name@),
                forall|j: int| 0 <= j < i ==> entry_key(self.entries@[j]) != (path@, size),
            decreases self.entries.len() - i,
        {
            let entry = &self.entries[i];
            if entry.size == size && entry.path == path {
                proof {
                    lemma_map_of_index(self.entries@, i as int);
                }
                return Some(&entry.font);
            }
            i += 1;
        }
        proof {
            lemma_map_of_contains(self.entries@, (path@, size));
        }
        None
    }

    /// Records what the engine's load of the canonical path came to, after
    /// [`Self::get_font`] missed. A successful load enters the cache under
    /// the key it was requested for and the new font is returned; a failed
    /// load is surfaced as a [`FontError`] naming the path and the cause,
    /// and the cache is left exactly as it was — a failure is never cached,
    /// so the next request for the key retries the load.
    pub fn complete_load(
        &mut self,
        font_folder: &str,
        font_name: &str,
        size: u16,
        outcome: Result<u64, String>,
    ) -> (loaded: Result<Font, FontError>)
        requires
            old(self).wf(),
            !old(self)@.contains_key((font_path_spec(font_folder@, font_name@), size)),
        ensures
            final(self).wf(),
            (outcome matches Ok(handle) ==> loaded matches Ok(font) && font@ == handle
                && final(self)@ == old(self)@.insert(
                    (font_path_spec(font_folder@, font_name@), size),
                    font,
                )),
            (outcome matches Err(cause) ==> loaded matches Err(error) && error@ == font_path_spec(
                font_folder@,
                font_name@,
            ) + ": "@ + cause@ && final(self)@ == old(self)@),
    {
        let path = font_path(font_folder, font_name);
        match outcome {
            Ok(handle) => {
                let font = Font::new(handle);
                let entry = FontEntry { path, size, font };
                let ghost prior = self.entries@;
                let ghost new_entry = entry;
                proof {
                    lemma_map_of_contains(prior, entry_key(new_entry));
                    lemma_map_of_push(prior, new_entry);
                }
                self.entries.push(entry);
                proof {
                    assert(self.entries@ == prior.push(new_entry));
                    assert forall|a: int, b: int|
                        0 <= a < b < self.entries@.len() implies entry_key(self.entries@[a])
                        != entry_key(self.entries@[b]) by {
                        if b < self.entries@.len() - 1 {
                            assert(entry_key(prior[a]) != entry_key(prior[b]));
                        } else {
                            assert(entry_key(prior[a]) != entry_key(new_entry));
                        }
                    }
                }
                Ok(font)
            },
            Err(cause) => {
                let mut message = path;
                message.append(": ");
                message.append(cause.as_str());
                proof {
                    assert(message@ =~= font_path_spec(font_folder@, font_name@) + ": "@
                        + cause@);
                }
                Err(FontError { message })
            },
        }
    }
}

/// Memoization law: once a load for a key has been recorded, every lookup
/// of that exact key finds the cache occupied and yields the very font the
/// load produced — and two lookups of one key on one cache state yield the
/// same resource identity, not merely equal-looking values.
pub proof fn lemma_memoization(
    cache: Map<(Seq<char>, u16), Font>,
    path: Seq<char>,
    size: u16,
    loaded: Font,
    first: Font,
    second: Font,
)
    requires
        first == cache.insert((path, size), loaded)[(path, size)],
        second == cache.insert((path, size), loaded)[(path, size)],
    ensures
        cache.insert((path, size), loaded).contains_key((path, size)),
        first == loaded,
        second == loaded,
        first == second,
{
}

/// Key sensitivity law: two requests that share a path but differ in size
/// use distinct cache keys, so a cache holding a font under each key keeps
/// the two entries apart and serves each size the font loaded for it.
pub proof fn lemma_key_sensitivity(
    cache: Map<(Seq<char>, u16), Font>,
    path: Seq<char>,
    size1: u16,
    size2: u16,
    font1: Font,
    font2: Font,
)
    requires
        size1 != size2,
    ensures
        (path, size1) != (path, size2),
        cache.insert((path, size1), font1).insert((path, size2), font2)[(path, size1)] == font1,
        cache.insert((path, size1), font1).insert((path, size2), font2)[(path, size2)] == font2,
{
}

/// No-negative-caching law: a failed load leaves the cache exactly as it
/// was, so the key is still absent afterwards and the next request for it
/// must attempt the load again — it can neither succeed spuriously nor
/// return a stale handle.
pub proof fn lemma_no_negative_caching(
    before: Map<(Seq<char>, u16), Font>,
    after: Map<(Seq<char>, u16), Font>,
    path: Seq<char>,
    size: u16,
)
    requires
        !before.contains_key((path, size)),
        after == before,
    ensures
        !after.contains_key((path, size)),
{
}

} // verus!

