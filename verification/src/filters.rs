//! The prefilters that the pipelines register, and which updates they accept.
use vstd::prelude::*;

use crate::car::util::bytes::bytes_eq;

verus! {

/// What a pipeline asks of a transaction: at least one of `accounts_include`
/// (when that list is not empty) and all of `accounts_required`.
#[derive(Debug, Clone, PartialEq, Eq)]
pub struct TransactionFilter {
    pub accounts_include: Vec<[u8; 32]>,
    pub accounts_required: Vec<[u8; 32]>,
}

/// The prefilter of one pipeline, named by its parser id.
#[derive(Debug, Clone, PartialEq, Eq)]
pub struct ParserFilter {
    pub id: String,
    /// Whether the pipeline asks for slot updates.
    pub slot: bool,
    /// What the pipeline asks of transactions, if it asks for transactions.
    pub transaction: Option<TransactionFilter>,
}

/// The prefilters of all pipelines.
#[derive(Debug, Clone, PartialEq, Eq)]
pub struct Filters {
    pub parsers_filters: Vec<ParserFilter>,
}

/// Whether no two pipelines in `filters` share an id.
pub open spec fn ids_distinct(filters: Seq<ParserFilter>) -> bool {
    forall|i: int, j: int| 0 <= i < j < filters.len() ==> (#[trigger] filters[i]).id@ != (#[trigger] filters[j]).id@
}

impl Filters {
    /// The prefilters are keyed by pipeline id: no id is registered twice.
    pub open spec fn wf(&self) -> bool {
        ids_distinct(self.parsers_filters@)
    }

    /// No prefilters.
    pub fn new() -> (res: Filters)
        ensures
            res.parsers_filters@.len() == 0,
            res.wf(),
    {
        Filters { parsers_filters: Vec::new() }
    }

    /// Registers a pipeline's prefilter under its id: it replaces the one
    /// registered under the same id, if any, else it is added last.
    pub fn insert(&mut self, filter: ParserFilter)
        requires
            old(self).wf(),
        ensures
            final(self).wf(),
            (exists|i: int| 0 <= i < old(self).parsers_filters@.len() && old(self).parsers_filters@[i].id@ == filter.id@) ==> exists|i: int|
                0 <= i < old(self).parsers_filters@.len() && old(self).parsers_filters@[i].id@ == filter.id@
                && final(self).parsers_filters@ == old(self).parsers_filters@.update(i, filter),
            !(exists|i: int| 0 <= i < old(self).parsers_filters@.len() && old(self).parsers_filters@[i].id@ == filter.id@)
                ==> final(self).parsers_filters@ == old(self).parsers_filters@.push(filter),
    {
        let mut i: usize = 0;
        while i < self.parsers_filters.len()
            invariant
                i <= self.parsers_filters@.len(),
                self.parsers_filters@ == old(self).parsers_filters@,
                old(self).wf(),
                forall|j: int| 0 <= j < i ==> self.parsers_filters@[j].id@ != filter.id@,
            decreases self.parsers_filters@.len() - i,
        {
            if self.parsers_filters[i].id == filter.id {
                let ghost before = self.parsers_filters@;
                self.parsers_filters.set(i, filter);
                proof {
                    let after = self.parsers_filters@;
                    assert forall|a: int, b: int| 0 <= a < b < after.len() implies (#[trigger] after[a]).id@ != (#[trigger] after[b]).id@ by {
                        if a != i as int && b != i as int {
                            assert(after[a] == before[a] && after[b] == before[b]);
                        } else if a == i as int {
                            assert(after[b] == before[b]);
                            assert(before[a].id@ != before[b].id@);
                        } else {
                            assert(after[a] == before[a]);
                            assert(before[a].id@ != before[b].id@);
                        }
                    }
                }
                return;
            }
            i += 1;
        }
        let ghost before = self.parsers_filters@;
        self.parsers_filters.push(filter);
        proof {
            let after = self.parsers_filters@;
            assert forall|a: int, b: int| 0 <= a < b < after.len() implies (#[trigger] after[a]).id@ != (#[trigger] after[b]).id@ by {
                assert(after[a] == before[a]);
                if b < before.len() {
                    assert(after[b] == before[b]);
                }
            }
        }
    }
}

/// Account keys by their bytes.
pub open spec fn keys_view(keys: Seq<[u8; 32]>) -> Seq<Seq<u8>> {
    keys.map_values(|k: [u8; 32]| k@)
}

/// Whether a transaction touching `accounts` passes `filter`.
pub open spec fn spec_prefilter_matches(filter: TransactionFilter, accounts: Seq<Seq<u8>>) -> bool {
    let wanted = keys_view(filter.accounts_include@);
    let required = keys_view(filter.accounts_required@);
    &&& (wanted.len() == 0 || exists|i: int| 0 <= i < accounts.len() && wanted.contains(#[trigger] accounts[i]))
    &&& (required.len() == 0 || forall|j: int| 0 <= j < required.len() ==> accounts.contains(#[trigger] required[j]))
}

/// Whether `key` is among `keys`.
fn contains_key(keys: &[[u8; 32]], key: &[u8; 32]) -> (res: bool)
    ensures
        res == keys_view(keys@).contains(key@),
{
    let mut i: usize = 0;
    while i < keys.len()
        invariant
            i <= keys@.len(),
            forall|j: int| 0 <= j < i ==> keys@[j]@ != key@,
        decreases keys@.len() - i,
    {
        if bytes_eq(keys[i].as_slice(), key.as_slice()) {
            assert(keys_view(keys@)[i as int] == key@);
            return true;
        }
        i += 1;
    }
    assert forall|j: int| 0 <= j < keys_view(keys@).len() implies keys_view(keys@)[j] != key@ by {}
    false
}

/// Whether some account of `accounts` is among `wanted`.
fn any_account_in(wanted: &[[u8; 32]], accounts: &[[u8; 32]]) -> (res: bool)
    ensures
        res == exists|i: int| 0 <= i < accounts@.len() && keys_view(wanted@).contains(#[trigger] keys_view(accounts@)[i]),
{
    let mut i: usize = 0;
    while i < accounts.len()
        invariant
            i <= accounts@.len(),
            forall|j: int| 0 <= j < i ==> !keys_view(wanted@).contains(#[trigger] keys_view(accounts@)[j]),
        decreases accounts@.len() - i,
    {
        if contains_key(wanted, &accounts[i]) {
            assert(keys_view(accounts@)[i as int] == accounts@[i as int]@);
            return true;
        }
        assert(keys_view(accounts@)[i as int] == accounts@[i as int]@);
        i += 1;
    }
    false
}

/// Whether every key of `required` is among `accounts`.
fn all_accounts_in(required: &[[u8; 32]], accounts: &[[u8; 32]]) -> (res: bool)
    ensures
        res == forall|j: int| 0 <= j < required@.len() ==> keys_view(accounts@).contains(#[trigger] keys_view(required@)[j]),
{
    let mut j: usize = 0;
    while j < required.len()
        invariant
            j <= required@.len(),
            forall|k: int| 0 <= k < j ==> keys_view(accounts@).contains(#[trigger] keys_view(required@)[k]),
        decreases required@.len() - j,
    {
        assert(keys_view(required@)[j as int] == required@[j as int]@);
        if !contains_key(accounts, &required[j]) {
            return false;
        }
        j += 1;
    }
    true
}

/// Whether a transaction touching `accounts` passes `filter`.
pub fn match_transaction_prefilter(filter: &TransactionFilter, accounts: &[[u8; 32]]) -> (res: bool)
    ensures
        res == spec_prefilter_matches(*filter, keys_view(accounts@)),
{
    if filter.accounts_include.len() > 0 && !any_account_in(filter.accounts_include.as_slice(), accounts) {
        return false;
    }
    if filter.accounts_required.len() > 0 && !all_accounts_in(filter.accounts_required.as_slice(), accounts) {
        return false;
    }
    true
}

/// Whether the pipeline asks for transactions and its filter passes one touching `accounts`.
pub open spec fn parser_passes(p: ParserFilter, accounts: Seq<Seq<u8>>) -> bool {
    match p.transaction {
        Some(f) => spec_prefilter_matches(f, accounts),
        None => false,
    }
}

/// The ids of the pipelines in `filters` whose transaction filter a
/// transaction touching `accounts` passes, in order.
pub open spec fn spec_matching_ids(filters: Seq<ParserFilter>, accounts: Seq<Seq<u8>>) -> Seq<Seq<char>>
    decreases filters.len(),
{
    if filters.len() == 0 {
        Seq::empty()
    } else {
        let rest = spec_matching_ids(filters.drop_last(), accounts);
        if parser_passes(filters.last(), accounts) {
            rest.push(filters.last().id@)
        } else {
            rest
        }
    }
}

/// The ids of the pipelines in `filters` that ask for slot updates, in order.
pub open spec fn spec_slot_ids(filters: Seq<ParserFilter>) -> Seq<Seq<char>>
    decreases filters.len(),
{
    if filters.len() == 0 {
        Seq::empty()
    } else {
        let rest = spec_slot_ids(filters.drop_last());
        if filters.last().slot {
            rest.push(filters.last().id@)
        } else {
            rest
        }
    }
}

/// Strings by their characters.
pub open spec fn strings_view(ids: Seq<String>) -> Seq<Seq<char>> {
    ids.map_values(|s: String| s@)
}

/// The ids of the pipelines whose transaction filter a transaction touching `accounts` passes.
pub fn matching_transaction_filters(filters: &Filters, accounts: &[[u8; 32]]) -> (res: Vec<String>)
    ensures
        strings_view(res@) == spec_matching_ids(filters.parsers_filters@, keys_view(accounts@)),
{
    let ps = &filters.parsers_filters;
    let mut out: Vec<String> = Vec::new();
    let mut i: usize = 0;
    assert(strings_view(out@) =~= Seq::<Seq<char>>::empty());
    while i < ps.len()
        invariant
            i <= ps@.len(),
            strings_view(out@) == spec_matching_ids(ps@.take(i as int), keys_view(accounts@)),
        decreases ps@.len() - i,
    {
        assert(ps@.take(i + 1).drop_last() =~= ps@.take(i as int));
        let ghost prev = out@;
        match &ps[i].transaction {
            Some(f) => {
                if match_transaction_prefilter(f, accounts) {
                    out.push(ps[i].id.clone());
                    assert(strings_view(out@) =~= strings_view(prev).push(ps@[i as int].id@));
                }
            },
            None => {},
        }
        i += 1;
    }
    assert(ps@.take(i as int) =~= ps@);
    out
}

/// The ids of the pipelines that ask for slot updates.
pub fn slot_filter_ids(filters: &Filters) -> (res: Vec<String>)
    ensures
        strings_view(res@) == spec_slot_ids(filters.parsers_filters@),
{
    let ps = &filters.parsers_filters;
    let mut out: Vec<String> = Vec::new();
    let mut i: usize = 0;
    assert(strings_view(out@) =~= Seq::<Seq<char>>::empty());
    while i < ps.len()
        invariant
            i <= ps@.len(),
            strings_view(out@) == spec_slot_ids(ps@.take(i as int)),
        decreases ps@.len() - i,
    {
        assert(ps@.take(i + 1).drop_last() =~= ps@.take(i as int));
        let ghost prev = out@;
        if ps[i].slot {
            out.push(ps[i].id.clone());
            assert(strings_view(out@) =~= strings_view(prev).push(ps@[i as int].id@));
        }
        i += 1;
    }
    assert(ps@.take(i as int) =~= ps@);
    out
}

/// A filter that names no accounts passes every transaction.
pub proof fn lemma_open_filter_matches_all(filter: TransactionFilter, accounts: Seq<Seq<u8>>)
    requires
        filter.accounts_include@.len() == 0,
        filter.accounts_required@.len() == 0,
    ensures
        spec_prefilter_matches(filter, accounts),
{
}

/// Touching more accounts never makes a transaction fail a filter it passed.
pub proof fn lemma_prefilter_monotone(filter: TransactionFilter, accounts: Seq<Seq<u8>>, more: Seq<Seq<u8>>)
    requires
        forall|i: int| 0 <= i < accounts.len() ==> more.contains(#[trigger] accounts[i]),
        spec_prefilter_matches(filter, accounts),
    ensures
        spec_prefilter_matches(filter, more),
{
    let wanted = keys_view(filter.accounts_include@);
    let required = keys_view(filter.accounts_required@);
    if wanted.len() != 0 {
        let i = choose|i: int| 0 <= i < accounts.len() && wanted.contains(#[trigger] accounts[i]);
        assert(more.contains(accounts[i]));
        let k = choose|k: int| 0 <= k < more.len() && more[k] == accounts[i];
        assert(wanted.contains(more[k]));
    }
    if required.len() != 0 {
        assert forall|j: int| 0 <= j < required.len() implies more.contains(#[trigger] required[j]) by {
            assert(accounts.contains(required[j]));
            let i = choose|i: int| 0 <= i < accounts.len() && accounts[i] == required[j];
            assert(more.contains(accounts[i]));
        }
    }
}

/// The pipelines that a transaction is sent to are exactly those whose
/// transaction filter it passes: an id is listed iff some pipeline with that
/// id asks for transactions and its filter passes.
pub proof fn lemma_matching_ids_exact(filters: Seq<ParserFilter>, accounts: Seq<Seq<u8>>, id: Seq<char>)
    ensures
        spec_matching_ids(filters, accounts).contains(id) <==> exists|i: int|
            0 <= i < filters.len() && (#[trigger] filters[i]).id@ == id && parser_passes(filters[i], accounts),
    decreases filters.len(),
{
    if filters.len() > 0 {
        let init = filters.drop_last();
        lemma_matching_ids_exact(init, accounts, id);
        let rest = spec_matching_ids(init, accounts);
        let last = filters.last();
        let n = filters.len() - 1;
        if spec_matching_ids(filters, accounts).contains(id) {
            if rest.contains(id) {
                let i = choose|i: int| 0 <= i < init.len() && (#[trigger] init[i]).id@ == id && parser_passes(init[i], accounts);
                assert(filters[i] == init[i]);
            } else {
                let k = choose|k: int| 0 <= k < spec_matching_ids(filters, accounts).len() && spec_matching_ids(filters, accounts)[k] == id;
                assert(k == rest.len());
                assert(filters[n] == last);
            }
        }
        if exists|i: int| 0 <= i < filters.len() && (#[trigger] filters[i]).id@ == id && parser_passes(filters[i], accounts) {
            let i = choose|i: int| 0 <= i < filters.len() && (#[trigger] filters[i]).id@ == id && parser_passes(filters[i], accounts);
            if i < n {
                assert(init[i] == filters[i]);
                let k = choose|k: int| 0 <= k < rest.len() && rest[k] == id;
                if parser_passes(last, accounts) {
                    assert(spec_matching_ids(filters, accounts)[k] == id);
                }
            } else {
                let all = spec_matching_ids(filters, accounts);
                assert(all[all.len() - 1] == id);
            }
        }
    }
}

/// Where no two pipelines share an id, an update lists no pipeline twice.
pub proof fn lemma_matching_ids_no_duplicates(filters: Seq<ParserFilter>, accounts: Seq<Seq<u8>>)
    requires
        ids_distinct(filters),
    ensures
        spec_matching_ids(filters, accounts).no_duplicates(),
    decreases filters.len(),
{
    if filters.len() > 0 {
        let init = filters.drop_last();
        assert(ids_distinct(init)) by {
            assert forall|i: int, j: int| 0 <= i < j < init.len() implies (#[trigger] init[i]).id@ != (#[trigger] init[j]).id@ by {
                assert(init[i] == filters[i] && init[j] == filters[j]);
            }
        }
        lemma_matching_ids_no_duplicates(init, accounts);
        let last = filters.last();
        if parser_passes(last, accounts) {
            lemma_matching_ids_exact(init, accounts, last.id@);
            if spec_matching_ids(init, accounts).contains(last.id@) {
                let i = choose|i: int| 0 <= i < init.len() && (#[trigger] init[i]).id@ == last.id@ && parser_passes(init[i], accounts);
                assert(filters[i] == init[i]);
                assert(filters[filters.len() - 1] == last);
            }
        }
    }
}

} // verus!
