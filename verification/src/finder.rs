//! The path registry: the entries of a colon-delimited search path, each
//! kept once, with substring search and listing.
use vstd::prelude::*;
use crate::split::{
    dedup, dedup_strings, first_index, is_first_at, lemma_dedup_members,
    lemma_dedup_no_duplicates, lemma_dedup_order, lemma_first_index, lemma_split_whole, split,
    split_segments,
};
use crate::text::{chars_of, decimal, has_substring, is_substring, render_decimal, views};

verus! {

/// The delimiter between the entries of a search path.
pub const SEPARATOR: char = ':';

/// The indices below `n` that `keep` accepts, in ascending order.
pub open spec fn indices_where(n: nat, keep: spec_fn(int) -> bool) -> Seq<usize>
    decreases n,
{
    if n == 0 {
        Seq::empty()
    } else {
        let init = indices_where((n - 1) as nat, keep);
        if keep(n - 1) {
            init.push((n - 1) as usize)
        } else {
            init
        }
    }
}

/// Tells whether the indices in `found` strictly ascend.
pub open spec fn ascending(found: Seq<usize>) -> bool {
    forall|a: int, b: int| 0 <= a < b < found.len() ==> found[a] < found[b]
}

/// The text of one listing line: the entry alone, or, when enumerated, the
/// decimal index, a tab and the entry.
pub open spec fn line_text(index: nat, entry: Seq<char>, enumerate: bool) -> Seq<char> {
    if enumerate {
        decimal(index) + seq!['\t'] + entry
    } else {
        entry
    }
}

/// What a filter is in contracts: the indices it names, if it is given.
pub open spec fn filter_view(locations: Option<Vec<usize>>) -> Option<Seq<usize>> {
    match locations {
        Some(l) => Some(l@),
        None => None,
    }
}

/// The registry as contracts see it.
pub ghost struct FinderView {
    /// The delimited text the registry was made from.
    pub path: Seq<char>,
    /// The entries: the segments of `path`, each kept at its first occurrence.
    pub places: Seq<Seq<char>>,
}

impl FinderView {
    /// The test that `find_locations` applies to the entry at index `i`.
    pub open spec fn matching(self, word: Seq<char>) -> spec_fn(int) -> bool {
        |i: int| 0 <= i < self.places.len() && is_substring(word, self.places[i])
    }

    /// The indices of the entries that contain `word`, ascending.
    pub open spec fn found(self, word: Seq<char>) -> Seq<usize> {
        indices_where(self.places.len(), self.matching(word))
    }

    /// The test that a listing applies to the entry at index `i`: without a
    /// filter every entry passes, with one those whose index it names.
    pub open spec fn selecting(self, locations: Option<Seq<usize>>) -> spec_fn(int) -> bool {
        |i: int|
            match locations {
                Some(l) => 0 <= i <= usize::MAX && l.contains(i as usize),
                None => true,
            }
    }

    /// The indices of the entries that a listing shows, ascending.
    pub open spec fn shown(self, locations: Option<Seq<usize>>) -> Seq<usize> {
        indices_where(self.places.len(), self.selecting(locations))
    }

    /// The lines for the entries at `indices`, one line per index: each
    /// enumerated line carries the entry's own index in `places`.
    pub open spec fn lines_of(self, indices: Seq<usize>, enumerate: bool) -> Seq<Seq<char>> {
        Seq::new(
            indices.len(),
            |k: int| line_text(indices[k] as nat, self.places[indices[k] as int], enumerate),
        )
    }

    /// The lines of a listing.
    pub open spec fn lines(self, locations: Option<Seq<usize>>, enumerate: bool) -> Seq<
        Seq<char>,
    > {
        self.lines_of(self.shown(locations), enumerate)
    }

    /// The lines of a search: one for each entry that contains the query, or
    /// for every entry where no query is given.
    pub open spec fn search_lines(self, query: Option<Seq<char>>, enumerate: bool) -> Seq<
        Seq<char>,
    > {
        match query {
            Some(word) => self.lines_of(self.found(word), enumerate),
            None => self.lines_of(Seq::new(self.places.len(), |i: int| i as usize), enumerate),
        }
    }
}

/// `indices_where` ascends strictly and holds exactly the accepted indices
/// below `n`.
pub proof fn lemma_indices_where(n: nat, keep: spec_fn(int) -> bool)
    requires
        n <= usize::MAX,
    ensures
        indices_where(n, keep).len() <= n,
        ascending(indices_where(n, keep)),
        forall|k: usize| indices_where(n, keep).contains(k) <==> (k < n && keep(k as int)),
    decreases n,
{
    if n > 0 {
        let init = indices_where((n - 1) as nat, keep);
        let all = indices_where(n, keep);
        lemma_indices_where((n - 1) as nat, keep);
        assert forall|a: int, b: int| 0 <= a < b < all.len() implies all[a] < all[b] by {
            assert(init.contains(all[a]));
            if b < init.len() {
                assert(init[a] < init[b]);
            }
        }
        assert forall|k: usize| all.contains(k) <==> (k < n && keep(k as int)) by {
            if all.contains(k) {
                let p = choose|p: int| 0 <= p < all.len() && all[p] == k;
                if p < init.len() {
                    assert(init[p] == k);
                    assert(init.contains(k));
                }
            }
            if k < n && keep(k as int) {
                if k < n - 1 {
                    assert(init.contains(k));
                    let p = choose|p: int| 0 <= p < init.len() && init[p] == k;
                    assert(all[p] == k);
                } else {
                    assert(all[all.len() - 1] == k);
                }
            }
        }
    }
}

/// Where `keep` accepts every index below `n`, `indices_where` counts from
/// zero up to `n`.
pub proof fn lemma_indices_where_all(n: nat, keep: spec_fn(int) -> bool)
    requires
        n <= usize::MAX,
        forall|i: int| 0 <= i < n ==> #[trigger] keep(i),
    ensures
        indices_where(n, keep) == Seq::new(n, |i: int| i as usize),
    decreases n,
{
    if n > 0 {
        lemma_indices_where_all((n - 1) as nat, keep);
    }
    assert(indices_where(n, keep) =~= Seq::new(n, |i: int| i as usize));
}

/// Two tests that agree below `n` select the same indices.
pub proof fn lemma_indices_where_agree(
    n: nat,
    keep: spec_fn(int) -> bool,
    other: spec_fn(int) -> bool,
)
    requires
        forall|i: int| 0 <= i < n ==> #[trigger] keep(i) == other(i),
    ensures
        indices_where(n, keep) == indices_where(n, other),
    decreases n,
{
    if n > 0 {
        lemma_indices_where_agree((n - 1) as nat, keep, other);
    }
}

/// A listing depends on which indices its filter names, not on their order
/// in the filter nor on how often it names one.
pub proof fn lemma_filter_order_irrelevant(
    registry: FinderView,
    first: Seq<usize>,
    second: Seq<usize>,
    enumerate: bool,
)
    requires
        forall|k: usize| first.contains(k) <==> second.contains(k),
    ensures
        registry.shown(Some(first)) == registry.shown(Some(second)),
        registry.lines(Some(first), enumerate) == registry.lines(Some(second), enumerate),
{
    lemma_indices_where_agree(
        registry.places.len(),
        registry.selecting(Some(first)),
        registry.selecting(Some(second)),
    );
}

/// A listing filtered by the result of a search shows exactly the entries
/// that the search found: a search is the listing of what was found.
pub proof fn lemma_search_shows_found(registry: FinderView, word: Seq<char>, enumerate: bool)
    requires
        registry.places.len() <= usize::MAX,
    ensures
        registry.shown(Some(registry.found(word))) == registry.found(word),
        registry.lines(Some(registry.found(word)), enumerate) == registry.search_lines(
            Some(word),
            enumerate,
        ),
{
    let n = registry.places.len();
    lemma_indices_where(n, registry.matching(word));
    let keep = registry.selecting(Some(registry.found(word)));
    let test = registry.matching(word);
    assert forall|i: int| 0 <= i < n implies #[trigger] keep(i) == test(i) by {
        assert(registry.found(word).contains(i as usize) <==> test(i as usize as int));
    }
    lemma_indices_where_agree(n, keep, test);
}

/// A listing shows its entries in ascending order of their index, and shows
/// exactly the entries that the filter names; without a filter, all of them.
pub proof fn lemma_shown(registry: FinderView, locations: Option<Seq<usize>>)
    requires
        registry.places.len() <= usize::MAX,
    ensures
        ascending(registry.shown(locations)),
        forall|k: usize|
            registry.shown(locations).contains(k) <==> (k < registry.places.len() && (
            locations matches Some(l) ==> l.contains(k))),
        locations is None ==> registry.shown(locations) == Seq::new(
            registry.places.len(),
            |i: int| i as usize,
        ),
{
    lemma_indices_where(registry.places.len(), registry.selecting(locations));
    if locations is None {
        lemma_indices_where_all(registry.places.len(), registry.selecting(locations));
    }
}

/// The entries of a registry are the segments of its path, each kept once at
/// its first occurrence: no entry stands twice, every segment is an entry and
/// every entry a segment, and the entries follow one another as their first
/// occurrences among the segments do.
pub proof fn lemma_entries_in_first_occurrence_order(path: Seq<char>)
    ensures
        dedup(split(path, SEPARATOR)).no_duplicates(),
        forall|v: Seq<char>|
            dedup(split(path, SEPARATOR)).contains(v) <==> split(path, SEPARATOR).contains(v),
        forall|i: int|
            0 <= i < dedup(split(path, SEPARATOR)).len() ==> is_first_at(
                split(path, SEPARATOR),
                #[trigger] dedup(split(path, SEPARATOR))[i],
                first_index(split(path, SEPARATOR), dedup(split(path, SEPARATOR))[i]),
            ),
        forall|i: int, j: int|
            0 <= i < j < dedup(split(path, SEPARATOR)).len() ==> first_index(
                split(path, SEPARATOR),
                #[trigger] dedup(split(path, SEPARATOR))[i],
            ) < first_index(split(path, SEPARATOR), #[trigger] dedup(split(path, SEPARATOR))[j]),
{
    let segments = split(path, SEPARATOR);
    let entries = dedup(segments);
    lemma_dedup_no_duplicates(segments);
    lemma_dedup_members(segments);
    lemma_dedup_order(segments);
    assert forall|i: int| 0 <= i < entries.len() implies is_first_at(
        segments,
        #[trigger] entries[i],
        first_index(segments, entries[i]),
    ) by {
        assert(entries.contains(entries[i]));
        lemma_first_index(segments, entries[i]);
    }
}

/// A text without a separator, the empty text among them, makes a registry
/// of one entry: the text itself.
pub proof fn lemma_single_entry(path: Seq<char>)
    requires
        !path.contains(SEPARATOR),
    ensures
        dedup(split(path, SEPARATOR)) == seq![path],
{
    lemma_split_whole(path, SEPARATOR);
    let one = seq![path];
    assert(one.drop_last() =~= Seq::<Seq<char>>::empty());
    assert(dedup(one.drop_last()) =~= Seq::<Seq<char>>::empty());
    assert(dedup(one) =~= one);
}

/// The registry of one search path.
pub struct Finder {
    path: String,
    places: Vec<String>,
}

impl View for Finder {
    type V = FinderView;

    closed spec fn view(&self) -> FinderView {
        FinderView { path: self.path@, places: views(self.places@) }
    }
}

/// Splits a search path at every separator and keeps each entry once, at its
/// first occurrence.
pub fn split_path(path: &str) -> (places: Vec<String>)
    ensures
        views(places@) == dedup(split(path@, SEPARATOR)),
        views(places@).no_duplicates(),
{
    let segments = split_segments(path, SEPARATOR);
    let places = dedup_strings(&segments);
    proof {
        lemma_dedup_no_duplicates(split(path@, SEPARATOR));
    }
    places
}

/// Renders one listing line for the entry `literal` at index `number`.
pub fn enumerate_line(number: usize, literal: &str, enumerate: bool) -> (line: String)
    ensures
        line@ == line_text(number as nat, literal@, enumerate),
{
    if enumerate {
        let mut line = render_decimal(number);
        proof {
            reveal_strlit("\t");
            assert("\t"@ =~= seq!['\t']);
        }
        line.append("\t");
        line.append(literal);
        line
    } else {
        String::from_str(literal)
    }
}

/// Tells whether `locations` names the index `index`.
pub fn names_index(locations: &Vec<usize>, index: usize) -> (r: bool)
    ensures
        r == locations@.contains(index),
{
    let mut k: usize = 0;
    while k < locations.len()
        invariant
            k <= locations.len(),
            forall|j: int| 0 <= j < k ==> locations@[j] != index,
        decreases locations.len() - k,
    {
        if locations[k] == index {
            return true;
        }
        k += 1;
    }
    false
}

impl Finder {
    #[verifier::type_invariant]
    spec fn well_formed(&self) -> bool {
        views(self.places@) == dedup(split(self.path@, SEPARATOR))
    }

    /// Builds the registry of `path`. Every text is accepted: the empty text
    /// gives one empty entry, a text without a separator one entry.
    pub fn new(path: String) -> (finder: Finder)
        ensures
            finder@.path == path@,
            finder@.places == dedup(split(path@, SEPARATOR)),
            finder@.places.no_duplicates(),
            finder@.places.len() <= usize::MAX,
    {
        let places = split_path(path.as_str());
        assert(views(places@).len() == places.len());
        Finder { path, places }
    }

    /// The delimited text the registry was made from.
    pub fn path(&self) -> (path: &String)
        ensures
            path@ == self@.path,
    {
        &self.path
    }

    /// The entries, in first-occurrence order.
    pub fn places(&self) -> (places: &Vec<String>)
        ensures
            views(places@) == self@.places,
            self@.places == dedup(split(self@.path, SEPARATOR)),
            self@.places.no_duplicates(),
            self@.places.len() <= usize::MAX,
    {
        proof {
            use_type_invariant(self);
            lemma_dedup_no_duplicates(split(self.path@, SEPARATOR));
            assert(views(self.places@).len() == self.places.len());
        }
        &self.places
    }

    /// The indices of the entries that contain `word`, ascending. The empty
    /// word is contained in every entry.
    pub fn find_locations(&self, word: String) -> (found: Vec<usize>)
        ensures
            found@ == self@.found(word@),
            ascending(found@),
            forall|k: usize|
                found@.contains(k) <==> (k < self@.places.len() && is_substring(
                    word@,
                    self@.places[k as int],
                )),
            word@.len() == 0 ==> found@ == Seq::new(self@.places.len(), |i: int| i as usize),
    {
        let needle = chars_of(word.as_str());
        let mut found: Vec<usize> = Vec::new();
        let mut i: usize = 0;
        while i < self.places.len()
            invariant
                i <= self.places.len(),
                needle@ == word@,
                found@ == indices_where(i as nat, self@.matching(word@)),
            decreases self.places.len() - i,
        {
            let hay = chars_of(self.places[i].as_str());
            if has_substring(&hay, &needle) {
                found.push(i);
            }
            i += 1;
        }
        proof {
            lemma_indices_where(self@.places.len(), self@.matching(word@));
            if word@.len() == 0 {
                let keep = self@.matching(word@);
                assert forall|k: int| 0 <= k < self@.places.len() implies #[trigger] keep(k) by {
                    assert(word@ =~= Seq::<char>::empty());
                    crate::text::lemma_empty_is_substring(self@.places[k]);
                }
                lemma_indices_where_all(self@.places.len(), self@.matching(word@));
            }
        }
        found
    }

    /// The indices of the entries that a listing with the filter `locations`
    /// shows: ascending, whatever the order inside the filter.
    pub fn select(&self, locations: &Option<Vec<usize>>) -> (shown: Vec<usize>)
        ensures
            shown@ == self@.shown(filter_view(*locations)),
            ascending(shown@),
            forall|k: usize|
                shown@.contains(k) <==> (k < self@.places.len() && (*locations matches Some(l)
                    ==> l@.contains(k))),
    {
        let mut shown: Vec<usize> = Vec::new();
        let mut i: usize = 0;
        while i < self.places.len()
            invariant
                i <= self.places.len(),
                shown@ == indices_where(i as nat, self@.selecting(filter_view(*locations))),
            decreases self.places.len() - i,
        {
            let keep = match locations {
                Some(l) => names_index(l, i),
                None => true,
            };
            if keep {
                shown.push(i);
            }
            i += 1;
        }
        proof {
            lemma_shown(self@, filter_view(*locations));
        }
        shown
    }

    /// The lines of a listing, in ascending order of the entries' indices.
    /// Without a filter every entry is listed; with one, the entries whose
    /// index it names. An enumerated line starts with the entry's index among
    /// all entries, then a tab.
    pub fn list(&self, locations: Option<Vec<usize>>, enumerate: bool) -> (lines: Vec<String>)
        ensures
            views(lines@) == self@.lines(filter_view(locations), enumerate),
            lines@.len() == self@.shown(filter_view(locations)).len(),
            forall|k: int|
                0 <= k < lines@.len() ==> (#[trigger] lines@[k])@ == line_text(
                    self@.shown(filter_view(locations))[k] as nat,
                    self@.places[self@.shown(filter_view(locations))[k] as int],
                    enumerate,
                ),
    {
        let shown = self.select(&locations);
        let mut lines: Vec<String> = Vec::new();
        let mut k: usize = 0;
        while k < shown.len()
            invariant
                k <= shown.len(),
                forall|j: usize| shown@.contains(j) ==> j < self.places.len(),
                views(lines@) == self@.lines_of(shown@.take(k as int), enumerate),
            decreases shown.len() - k,
        {
            let index = shown[k];
            assert(shown@.contains(index));
            let ghost before = views(lines@);
            lines.push(enumerate_line(index, self.places[index].as_str(), enumerate));
            proof {
                let next = self@.lines_of(shown@.take(k + 1), enumerate);
                assert(views(lines@) =~= before.push(lines@[k as int]@));
                assert(self@.places[index as int] == self.places@[index as int]@);
                assert forall|j: int| 0 <= j < k implies before[j] == next[j] by {
                    assert(shown@.take(k as int)[j] == shown@.take(k + 1)[j]);
                }
                assert(views(lines@) =~= next);
            }
            k += 1;
        }
        assert(shown@.take(k as int) =~= shown@);
        assert(views(lines@).len() == lines@.len());
        assert forall|j: int| 0 <= j < lines@.len() implies (#[trigger] lines@[j])@ == line_text(
            shown@[j] as nat,
            self@.places[shown@[j] as int],
            enumerate,
        ) by {
            assert(views(lines@)[j] == lines@[j]@);
        }
        lines
    }

    /// The lines of a search: the entries that contain `query`, or every
    /// entry where no query is given.
    pub fn search(&self, query: Option<String>, enumerate: bool) -> (lines: Vec<String>)
        ensures
            views(lines@) == self@.search_lines(
                match query {
                    Some(word) => Some(word@),
                    None => None,
                },
                enumerate,
            ),
    {
        proof {
            use_type_invariant(self);
            assert(views(self.places@).len() == self.places.len());
            lemma_shown(self@, None);
            if query is Some {
                lemma_search_shows_found(self@, query->0@, enumerate);
            }
        }
        let phrase = match query {
            Some(word) => Some(self.find_locations(word)),
            None => None,
        };
        self.list(phrase, enumerate)
    }
}

} // verus!
