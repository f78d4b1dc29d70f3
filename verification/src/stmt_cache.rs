use vstd::prelude::*;

verus! {

/// What a cached statement is for: one slot per hot-path statement shape,
/// per table (and per column where the statement is column-specific).
#[derive(Clone, Copy, Debug, PartialEq, Eq, Structural)]
pub enum StmtPurpose {
    SetWinnerClock,
    GetColVersion,
    GetCurrValue,
    CheckForLocalDelete,
    RowPatchData,
    LocalCl,
    MergePkOnlyInsert,
    MergeDelete,
    MergeDeleteDropClocks,
}

/// One registered statement: its key (table, purpose, optional column), the
/// SQL it was prepared from, and whether its handle is still live. The
/// handle itself lives in the host engine; the registry is the single owner
/// that decides when it is prepared and when it is finalized.
#[derive(Debug)]
pub struct CacheEntry {
    pub table: String,
    pub purpose: StmtPurpose,
    pub col: Option<String>,
    pub sql: String,
    pub live: bool,
}

/// Mathematical model of a cache entry.
pub struct CacheEntryModel {
    pub table: Seq<char>,
    pub purpose: StmtPurpose,
    pub col: Option<Seq<char>>,
    pub sql: Seq<char>,
    pub live: bool,
}

impl DeepView for CacheEntry {
    type V = CacheEntryModel;

    open spec fn deep_view(&self) -> CacheEntryModel {
        CacheEntryModel {
            table: self.table@,
            purpose: self.purpose,
            col: match &self.col {
                Some(c) => Some(c@),
                None => None,
            },
            sql: self.sql@,
            live: self.live,
        }
    }
}

/// Whether an entry carries the given key.
pub open spec fn entry_has_key(
    e: CacheEntryModel,
    table: Seq<char>,
    purpose: StmtPurpose,
    col: Option<Seq<char>>,
) -> bool {
    e.table == table && e.purpose == purpose && e.col == col
}

/// Index of the entry with the given key, or `-1` when none exists.
pub open spec fn cache_find(
    entries: Seq<CacheEntryModel>,
    table: Seq<char>,
    purpose: StmtPurpose,
    col: Option<Seq<char>>,
) -> int
    decreases entries.len(),
{
    if entries.len() == 0 {
        -1
    } else if entry_has_key(entries[0], table, purpose, col) {
        0
    } else {
        let r = cache_find(entries.skip(1), table, purpose, col);
        if r < 0 {
            -1
        } else {
            r + 1
        }
    }
}

/// `cache_find` returns a sound index.
pub proof fn lemma_cache_find_char(
    entries: Seq<CacheEntryModel>,
    table: Seq<char>,
    purpose: StmtPurpose,
    col: Option<Seq<char>>,
)
    ensures
        cache_find(entries, table, purpose, col) == -1 ==> forall|i: int|
            0 <= i < entries.len() ==> !entry_has_key(#[trigger] entries[i], table, purpose, col),
        cache_find(entries, table, purpose, col) >= 0 ==> 0 <= cache_find(
            entries,
            table,
            purpose,
            col,
        ) < entries.len() && entry_has_key(
            entries[cache_find(entries, table, purpose, col)],
            table,
            purpose,
            col,
        ),
    decreases entries.len(),
{
    if entries.len() > 0 && !entry_has_key(entries[0], table, purpose, col) {
        lemma_cache_find_char(entries.skip(1), table, purpose, col);
        let r = cache_find(entries.skip(1), table, purpose, col);
        if r == -1 {
            assert forall|i: int|
                0 <= i < entries.len() implies !entry_has_key(
                #[trigger] entries[i],
                table,
                purpose,
                col,
            ) by {
                if i >= 1 {
                    assert(entries.skip(1)[i - 1] == entries[i]);
                }
            }
        } else {
            assert(entries.skip(1)[r] == entries[r + 1]);
        }
    }
}

/// When position `i` holds the key and no earlier position does,
/// `cache_find` returns `i`.
proof fn lemma_cache_find_of(
    entries: Seq<CacheEntryModel>,
    table: Seq<char>,
    purpose: StmtPurpose,
    col: Option<Seq<char>>,
    i: int,
)
    requires
        0 <= i < entries.len(),
        entry_has_key(entries[i], table, purpose, col),
        forall|j: int| 0 <= j < i ==> !entry_has_key(#[trigger] entries[j], table, purpose, col),
    ensures
        cache_find(entries, table, purpose, col) == i,
    decreases i,
{
    if i > 0 {
        assert forall|j: int|
            0 <= j < i - 1 implies !entry_has_key(
            #[trigger] entries.skip(1)[j],
            table,
            purpose,
            col,
        ) by {
            assert(entries.skip(1)[j] == entries[j + 1]);
        }
        assert(entries.skip(1)[i - 1] == entries[i]);
        lemma_cache_find_of(entries.skip(1), table, purpose, col, i - 1);
    }
}

/// Keys are unique: a key names at most one registered statement.
pub open spec fn cache_wf(entries: Seq<CacheEntryModel>) -> bool {
    forall|i: int, j: int|
        0 <= i < j < entries.len() ==> !entry_has_key(
            #[trigger] entries[j],
            (#[trigger] entries[i]).table,
            entries[i].purpose,
            entries[i].col,
        )
}

/// How many handles the registry currently owns.
pub open spec fn live_count(entries: Seq<CacheEntryModel>) -> int
    decreases entries.len(),
{
    if entries.len() == 0 {
        0int
    } else {
        (if entries[0].live {
            1int
        } else {
            0int
        }) + live_count(entries.skip(1))
    }
}

/// The owning registry of lazily-prepared per-table statements: a handle
/// table keyed by (table, purpose, column). Each key is prepared at most
/// once and reused from then on; invalidation finalizes every live handle
/// exactly once and empties the registry, so nothing leaks and nothing is
/// finalized twice. The host engine performs the actual prepare/finalize;
/// the registry is the bookkeeping that makes those calls balanced.
#[derive(Debug)]
pub struct StmtCache {
    pub entries: Vec<CacheEntry>,
}

/// Whether two optional column names are the same key component.
fn col_key_eq(a: &Option<String>, b: &Option<String>) -> (r: bool)
    ensures
        r == ((match a {
            Some(x) => Some(x@),
            None => None,
        }) == (match b {
            Some(y) => Some(y@),
            None => None,
        })),
{
    match (a, b) {
        (None, None) => true,
        (Some(x), Some(y)) => *x == *y,
        _ => false,
    }
}

impl StmtCache {
    /// An empty registry.
    pub fn new() -> (r: StmtCache)
        ensures
            r.entries.deep_view() == Seq::<CacheEntryModel>::empty(),
            cache_wf(r.entries.deep_view()),
    {
        let r = StmtCache { entries: Vec::new() };
        proof {
            assert(r.entries.deep_view() =~= Seq::<CacheEntryModel>::empty());
        }
        r
    }

    /// Finds the registered statement for a key, if any.
    pub fn lookup(&self, table: &String, purpose: StmtPurpose, col: &Option<String>) -> (r: Option<
        usize,
    >)
        ensures
            ({
                let key_col = match col {
                    Some(c) => Some(c@),
                    None => None,
                };
                match r {
                    Some(i) => i as int == cache_find(
                        self.entries.deep_view(),
                        table@,
                        purpose,
                        key_col,
                    ) && i < self.entries@.len(),
                    None => cache_find(self.entries.deep_view(), table@, purpose, key_col) == -1,
                }
            }),
    {
        let ghost key_col = match col {
            Some(c) => Some(c@),
            None => None,
        };
        let ghost em = self.entries.deep_view();
        let n: usize = self.entries.len();
        let mut i: usize = 0;
        while i < n
            invariant
                i <= n,
                n == self.entries@.len(),
                em == self.entries.deep_view(),
                key_col == (match col {
                    Some(c) => Some(c@),
                    None => None,
                }),
                forall|j: int| 0 <= j < i ==> !entry_has_key(#[trigger] em[j], table@, purpose, key_col),
            decreases n - i,
        {
            let e = &self.entries[i];
            let hit = e.table == *table && e.purpose == purpose && col_key_eq(&e.col, col);
            proof {
                assert(em[i as int] == self.entries@[i as int].deep_view());
            }
            if hit {
                proof {
                    lemma_cache_find_of(em, table@, purpose, key_col, i as int);
                }
                return Some(i);
            }
            i = i + 1;
        }
        proof {
            lemma_cache_find_char(em, table@, purpose, key_col);
            if cache_find(em, table@, purpose, key_col) >= 0 {
                assert(false);
            }
        }
        None
    }

    /// Hands out the handle slot for a key, registering a fresh live entry
    /// with the supplied SQL when the key is new: each key is prepared at
    /// most once, and an existing registration is reused untouched.
    pub fn get_or_prepare(
        &mut self,
        table: String,
        purpose: StmtPurpose,
        col: Option<String>,
        sql: String,
    ) -> (idx: usize)
        requires
            cache_wf(old(self).entries.deep_view()),
        ensures
            ({
                let key_col = match col {
                    Some(c) => Some(c@),
                    None => None,
                };
                let before = old(self).entries.deep_view();
                let found = cache_find(before, table@, purpose, key_col);
                &&& (found >= 0 ==> final(self).entries.deep_view() == before && idx as int
                    == found)
                &&& (found < 0 ==> final(self).entries.deep_view() == before.push(
                    CacheEntryModel {
                        table: table@,
                        purpose,
                        col: key_col,
                        sql: sql@,
                        live: true,
                    },
                ) && idx as int == before.len())
                &&& idx < final(self).entries@.len()
                &&& entry_has_key(final(self).entries.deep_view()[idx as int], table@, purpose, key_col)
                &&& cache_wf(final(self).entries.deep_view())
            }),
    {
        let ghost before = self.entries.deep_view();
        let ghost key_col = match &col {
            Some(c) => Some(c@),
            None => None,
        };
        match self.lookup(&table, purpose, &col) {
            Some(i) => {
                proof {
                    lemma_cache_find_char(before, table@, purpose, key_col);
                }
                i
            },
            None => {
                let idx = self.entries.len();
                let entry = CacheEntry { table, purpose, col, sql, live: true };
                let ghost new_model = entry.deep_view();
                self.entries.push(entry);
                proof {
                    assert(self.entries.deep_view() =~= before.push(new_model));
                    lemma_cache_find_char(before, table@, purpose, key_col);
                    let now = self.entries.deep_view();
                    assert forall|a: int, b: int|
                        0 <= a < b < now.len() implies !entry_has_key(
                        #[trigger] now[b],
                        (#[trigger] now[a]).table,
                        now[a].purpose,
                        now[a].col,
                    ) by {
                        if b < before.len() {
                            assert(now[a] == before[a]);
                            assert(now[b] == before[b]);
                        } else {
                            assert(now[a] == before[a]);
                            assert(now[b] == new_model);
                        }
                    }
                }
                idx
            },
        }
    }

    /// Invalidation: hands back how many live handles the registry owned —
    /// the exact number of finalize calls the host must make, each handle
    /// counted once — and empties the registry, so a repeated invalidation
    /// owes zero further finalizations and nothing is ever finalized twice.
    pub fn release_all(&mut self) -> (count: usize)
        requires
            old(self).entries@.len() <= usize::MAX,
        ensures
            count as int == live_count(old(self).entries.deep_view()),
            final(self).entries.deep_view() == Seq::<CacheEntryModel>::empty(),
            cache_wf(final(self).entries.deep_view()),
    {
        let ghost before = self.entries.deep_view();
        proof {
            lemma_live_count_bounds(before);
        }
        let mut count: usize = 0;
        let n: usize = self.entries.len();
        let mut i: usize = 0;
        while i < n
            invariant
                i <= n,
                n == self.entries@.len(),
                before == self.entries.deep_view(),
                count as int == live_count(before.take(i as int)),
                count <= i,
            decreases n - i,
        {
            proof {
                lemma_live_count_snoc(before.take(i as int), before[i as int]);
                assert(before.take(i + 1 as int).drop_last() =~= before.take(i as int));
                assert(before.take(i + 1 as int) =~= before.take(i as int).push(before[i as int]));
                lemma_live_count_bounds(before.take(i as int));
            }
            if self.entries[i].live {
                count = count + 1;
            }
            i = i + 1;
        }
        self.entries = Vec::new();
        proof {
            assert(before.take(n as int) =~= before);
            assert(self.entries.deep_view() =~= Seq::<CacheEntryModel>::empty());
        }
        count
    }
}

/// `live_count` counts at most one per entry.
proof fn lemma_live_count_bounds(entries: Seq<CacheEntryModel>)
    ensures
        0 <= live_count(entries) <= entries.len(),
    decreases entries.len(),
{
    if entries.len() > 0 {
        lemma_live_count_bounds(entries.skip(1));
    }
}

/// `live_count` over an appended entry.
proof fn lemma_live_count_snoc(entries: Seq<CacheEntryModel>, e: CacheEntryModel)
    ensures
        live_count(entries.push(e)) == live_count(entries) + (if e.live {
            1int
        } else {
            0int
        }),
    decreases entries.len(),
{
    if entries.len() == 0 {
        assert(entries.push(e)[0] == e);
        assert(entries.push(e).skip(1) =~= Seq::<CacheEntryModel>::empty());
        assert(live_count(entries.push(e)) == (if e.live {
            1int
        } else {
            0int
        }) + live_count(Seq::<CacheEntryModel>::empty()));
    } else {
        assert(entries.push(e).skip(1) =~= entries.skip(1).push(e));
        lemma_live_count_snoc(entries.skip(1), e);
        assert(entries.push(e)[0] == entries[0]);
        assert(live_count(entries.push(e)) == (if entries[0].live {
            1int
        } else {
            0int
        }) + live_count(entries.skip(1).push(e)));
    }
}

} // verus!
