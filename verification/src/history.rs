//! The download history: records of finished downloads, kept in the order
//! they were added, listed newest first, searchable and deletable.
use vstd::prelude::*;
use vstd::string::StringExecFns;
use crate::ids::{is_uuid_v4_text, new_uuid_v4, utc_now_rfc3339};
use vstd::utf8::is_ascii_chars;
use crate::text::{
    ascii_lower_text, ascii_upper_text, chars_of, contains, contains_exec, law_ascii_case_fold,
    lemma_contains_self, lowercase, matches_at, to_lowercase,
};

verus! {

/// One finished download.
#[derive(Clone, Debug)]
pub struct HistoryRecord {
    pub id: String,
    pub url: String,
    pub title: String,
    pub format_id: String,
    pub ext: String,
    pub resolution: String,
    pub filesize: String,
    pub filepath: String,
    pub downloaded_at: String,
}

impl HistoryRecord {
    /// A copy of the record, equal to it in every field.
    pub fn duplicate(&self) -> (r: HistoryRecord)
        ensures
            r == *self,
    {
        HistoryRecord {
            id: self.id.clone(),
            url: self.url.clone(),
            title: self.title.clone(),
            format_id: self.format_id.clone(),
            ext: self.ext.clone(),
            resolution: self.resolution.clone(),
            filesize: self.filesize.clone(),
            filepath: self.filepath.clone(),
            downloaded_at: self.downloaded_at.clone(),
        }
    }
}

/// A record matches the lower-cased query `q` when its lower-cased title or
/// url contains it.
pub open spec fn record_matches(r: HistoryRecord, q: Seq<char>) -> bool {
    contains(lowercase(r.title@), q) || contains(lowercase(r.url@), q)
}

/// The records that match `q`, in their order.
pub open spec fn records_matching(records: Seq<HistoryRecord>, q: Seq<char>) -> Seq<HistoryRecord>
    decreases records.len(),
{
    if records.len() == 0 {
        Seq::empty()
    } else {
        let rest = records_matching(records.drop_last(), q);
        if record_matches(records.last(), q) {
            rest.push(records.last())
        } else {
            rest
        }
    }
}

/// The records whose id is not `id`, in their order.
pub open spec fn records_without_id(records: Seq<HistoryRecord>, id: Seq<char>) -> Seq<HistoryRecord>
    decreases records.len(),
{
    if records.len() == 0 {
        Seq::empty()
    } else {
        let rest = records_without_id(records.drop_last(), id);
        if records.last().id@ != id {
            rest.push(records.last())
        } else {
            rest
        }
    }
}

/// Some record has url `url`.
pub open spec fn has_url_in(records: Seq<HistoryRecord>, url: Seq<char>) -> bool {
    exists|i: int| 0 <= i < records.len() && #[trigger] records[i].url@ == url
}

/// `r` is the record made of these texts.
pub open spec fn record_fields(
    r: HistoryRecord,
    id: Seq<char>,
    url: Seq<char>,
    title: Seq<char>,
    format_id: Seq<char>,
    ext: Seq<char>,
    resolution: Seq<char>,
    filesize: Seq<char>,
    filepath: Seq<char>,
    downloaded_at: Seq<char>,
) -> bool {
    &&& r.id@ == id
    &&& r.url@ == url
    &&& r.title@ == title
    &&& r.format_id@ == format_id
    &&& r.ext@ == ext
    &&& r.resolution@ == resolution
    &&& r.filesize@ == filesize
    &&& r.filepath@ == filepath
    &&& r.downloaded_at@ == downloaded_at
}

/// Law: after a record is added, the history has its url.
pub proof fn law_added_url_found(records: Seq<HistoryRecord>, r: HistoryRecord)
    ensures
        has_url_in(records.push(r), r.url@),
{
    assert(records.push(r)[records.len() as int].url@ == r.url@);
}

/// Law: after deleting id `id`, no record has that id, and every record that
/// had another id is still there, in the same order.
pub proof fn law_delete_removes_only_id(records: Seq<HistoryRecord>, id: Seq<char>)
    ensures
        forall|j: int|
            0 <= j < records_without_id(records, id).len() ==> #[trigger] records_without_id(
                records,
                id,
            )[j].id@ != id,
        forall|i: int|
            0 <= i < records.len() && records[i].id@ != id ==> records_without_id(
                records,
                id,
            ).contains(#[trigger] records[i]),
        forall|j: int|
            0 <= j < records_without_id(records, id).len() ==> records.contains(
                #[trigger] records_without_id(records, id)[j],
            ),
    decreases records.len(),
{
    if records.len() > 0 {
        let init = records.drop_last();
        law_delete_removes_only_id(init, id);
        let rest = records_without_id(init, id);
        let out = records_without_id(records, id);
        assert forall|i: int| 0 <= i < records.len() && records[i].id@ != id implies out.contains(
            #[trigger] records[i],
        ) by {
            if i < records.len() - 1 {
                assert(records[i] == init[i]);
                assert(rest.contains(init[i]));
                let k = choose|k: int| 0 <= k < rest.len() && rest[k] == init[i];
                if records.last().id@ != id {
                    assert(out[k] == rest[k]);
                }
            } else {
                assert(out[out.len() - 1] == records.last());
            }
        }
        assert forall|j: int| 0 <= j < out.len() implies records.contains(#[trigger] out[j]) by {
            if j < rest.len() {
                assert(out[j] == rest[j]);
                assert(init.contains(rest[j]));
                let k = choose|k: int| 0 <= k < init.len() && init[k] == rest[j];
                assert(records[k] == init[k]);
            } else {
                assert(out[j] == records.last());
                assert(records[records.len() - 1] == records.last());
            }
        }
        assert forall|j: int| 0 <= j < out.len() implies #[trigger] out[j].id@ != id by {
            if j < rest.len() {
                assert(out[j] == rest[j]);
            }
        }
    }
}

/// Deleting an id that no record has changes nothing.
pub proof fn lemma_delete_absent(records: Seq<HistoryRecord>, id: Seq<char>)
    requires
        forall|i: int| 0 <= i < records.len() ==> #[trigger] records[i].id@ != id,
    ensures
        records_without_id(records, id) == records,
    decreases records.len(),
{
    if records.len() > 0 {
        let init = records.drop_last();
        assert forall|i: int| 0 <= i < init.len() implies #[trigger] init[i].id@ != id by {
            assert(init[i] == records[i]);
        }
        lemma_delete_absent(init, id);
        assert(records.last() == records[records.len() - 1]);
        assert(init.push(records.last()) =~= records);
    }
}

/// Law: deleting is idempotent: deleting the same id twice leaves what
/// deleting it once does.
pub proof fn law_delete_idempotent(records: Seq<HistoryRecord>, id: Seq<char>)
    ensures
        records_without_id(records_without_id(records, id), id) == records_without_id(records, id),
{
    law_delete_removes_only_id(records, id);
    lemma_delete_absent(records_without_id(records, id), id);
}

/// Law: deleting the id of a record just added, when no earlier record has
/// that id, gives back the history as it was before the addition.
pub proof fn law_delete_undoes_add(records: Seq<HistoryRecord>, r: HistoryRecord)
    requires
        forall|i: int| 0 <= i < records.len() ==> #[trigger] records[i].id@ != r.id@,
    ensures
        records_without_id(records.push(r), r.id@) == records,
{
    assert(records.push(r).drop_last() =~= records);
    lemma_delete_absent(records, r.id@);
}

/// Law: the search finds exactly the matching records: every result matches
/// the query and is a record of the history, and every record that matches
/// is among the results.
pub proof fn law_search_results_match(records: Seq<HistoryRecord>, q: Seq<char>)
    ensures
        forall|j: int|
            0 <= j < records_matching(records, q).len() ==> record_matches(
                #[trigger] records_matching(records, q)[j],
                q,
            ) && records.contains(records_matching(records, q)[j]),
        forall|i: int|
            0 <= i < records.len() && record_matches(records[i], q) ==> records_matching(
                records,
                q,
            ).contains(#[trigger] records[i]),
    decreases records.len(),
{
    if records.len() > 0 {
        let init = records.drop_last();
        law_search_results_match(init, q);
        let rest = records_matching(init, q);
        let out = records_matching(records, q);
        assert forall|j: int| 0 <= j < out.len() implies record_matches(#[trigger] out[j], q)
            && records.contains(out[j]) by {
            if j < rest.len() {
                assert(out[j] == rest[j]);
                assert(init.contains(rest[j]));
                let k = choose|k: int| 0 <= k < init.len() && init[k] == rest[j];
                assert(records[k] == init[k]);
            } else {
                assert(out[j] == records.last());
                assert(records[records.len() - 1] == records.last());
            }
        }
        assert forall|i: int| 0 <= i < records.len() && record_matches(records[i], q) implies out.contains(
            #[trigger] records[i],
        ) by {
            if i < records.len() - 1 {
                assert(records[i] == init[i]);
                assert(rest.contains(init[i]));
                let k = choose|k: int| 0 <= k < rest.len() && rest[k] == init[i];
                if record_matches(records.last(), q) {
                    assert(out[k] == rest[k]);
                }
            } else {
                assert(out[out.len() - 1] == records.last());
            }
        }
    }
}

/// Every record matches the empty query.
pub proof fn lemma_matching_empty(records: Seq<HistoryRecord>)
    ensures
        records_matching(records, Seq::empty()) == records,
    decreases records.len(),
{
    if records.len() > 0 {
        let r = records.last();
        assert(lowercase(r.title@).subrange(0, 0) =~= Seq::<char>::empty());
        assert(matches_at(lowercase(r.title@), Seq::empty(), 0));
        lemma_matching_empty(records.drop_last());
        assert(records.drop_last().push(r) =~= records);
    }
}

/// `ix` picks the items of `a` out of `b`: `a[i]` is `b[ix[i]]`, and the
/// indices rise strictly.
pub open spec fn picks<A>(ix: Seq<int>, a: Seq<A>, b: Seq<A>) -> bool {
    &&& ix.len() == a.len()
    &&& forall|i: int| 0 <= i < ix.len() ==> 0 <= #[trigger] ix[i] < b.len() && b[ix[i]] == a[i]
    &&& forall|i: int, j: int| 0 <= i < j < ix.len() ==> #[trigger] ix[i] < #[trigger] ix[j]
}

/// `a` is a subsequence of `b`: its items occur in `b` in the same order.
pub open spec fn is_subsequence<A>(a: Seq<A>, b: Seq<A>) -> bool {
    exists|ix: Seq<int>| picks(ix, a, b)
}

/// The positions of the matching records.
proof fn lemma_matching_picks(records: Seq<HistoryRecord>, q: Seq<char>) -> (ix: Seq<int>)
    ensures
        picks(ix, records_matching(records, q), records),
    decreases records.len(),
{
    if records.len() == 0 {
        Seq::empty()
    } else {
        let init = records.drop_last();
        let ix0 = lemma_matching_picks(init, q);
        if record_matches(records.last(), q) {
            let ix = ix0.push(records.len() - 1);
            let out = records_matching(records, q);
            assert forall|i: int| 0 <= i < ix.len() implies 0 <= #[trigger] ix[i] < records.len()
                && records[ix[i]] == out[i] by {
                if i < ix0.len() {
                    assert(ix[i] == ix0[i]);
                    assert(records[ix0[i]] == init[ix0[i]]);
                }
            }
            ix
        } else {
            assert forall|i: int| 0 <= i < ix0.len() implies 0 <= #[trigger] ix0[i]
                < records.len() && records[ix0[i]] == records_matching(records, q)[i] by {
                assert(records[ix0[i]] == init[ix0[i]]);
            }
            ix0
        }
    }
}

/// Reversing both sequences keeps a subsequence one.
proof fn lemma_subsequence_reverse<A>(ix: Seq<int>, a: Seq<A>, b: Seq<A>)
    requires
        picks(ix, a, b),
    ensures
        is_subsequence(a.reverse(), b.reverse()),
{
    let m = ix.len();
    let n = b.len();
    let rx = Seq::new(m, |i: int| n - 1 - ix[m - 1 - i]);
    assert forall|i: int| 0 <= i < rx.len() implies 0 <= #[trigger] rx[i] < b.reverse().len()
        && b.reverse()[rx[i]] == a.reverse()[i] by {
        assert(0 <= ix[m - 1 - i] < n);
    }
    assert forall|i: int, j: int| 0 <= i < j < rx.len() implies #[trigger] rx[i] < #[trigger] rx[j] by {
        assert(ix[m - 1 - j] < ix[m - 1 - i]);
    }
    assert(picks(rx, a.reverse(), b.reverse()));
}

/// Law: the search results, newest first, are a subsequence of all records
/// newest first: a search only leaves records out, and never reorders them.
pub proof fn law_search_is_subsequence(records: Seq<HistoryRecord>, q: Seq<char>)
    ensures
        is_subsequence(records_matching(records, q).reverse(), records.reverse()),
{
    let ix = lemma_matching_picks(records, q);
    lemma_subsequence_reverse(ix, records_matching(records, q), records);
}

/// Law: the empty query matches every record, so searching for it lists the
/// whole history.
pub proof fn law_search_empty_lists_all(records: Seq<HistoryRecord>)
    ensures
        records_matching(records, ascii_lower_text(Seq::empty())) == records,
{
    assert(ascii_lower_text(Seq::<char>::empty()) =~= Seq::<char>::empty());
    lemma_matching_empty(records);
}

/// Law: an ASCII query finds the same records as its upper-case form: the
/// search ignores the case of ASCII letters.
pub proof fn law_search_ignores_ascii_case(records: Seq<HistoryRecord>, q: Seq<char>)
    requires
        is_ascii_chars(q),
    ensures
        is_ascii_chars(ascii_upper_text(q)),
        records_matching(records, ascii_lower_text(ascii_upper_text(q))) == records_matching(
            records,
            ascii_lower_text(q),
        ),
{
    law_ascii_case_fold(q);
}

/// Law: a record is among the search results exactly when its lower-cased
/// title or its whole lower-cased url contains the query.
pub proof fn law_search_by_title_or_url(records: Seq<HistoryRecord>, q: Seq<char>, i: int)
    requires
        0 <= i < records.len(),
    ensures
        records_matching(records, q).contains(records[i]) <==> (contains(
            lowercase(records[i].title@),
            q,
        ) || contains(lowercase(records[i].url@), q)),
{
    law_search_results_match(records, q);
    let out = records_matching(records, q);
    if out.contains(records[i]) {
        let j = choose|j: int| 0 <= j < out.len() && out[j] == records[i];
        assert(record_matches(out[j], q));
    }
}

/// Law: searching for a record's own url (in lower case), or for its own
/// title, finds it.
pub proof fn law_search_finds_own_url_and_title(records: Seq<HistoryRecord>, i: int)
    requires
        0 <= i < records.len(),
    ensures
        records_matching(records, lowercase(records[i].url@)).contains(records[i]),
        records_matching(records, lowercase(records[i].title@)).contains(records[i]),
{
    lemma_contains_self(lowercase(records[i].url@));
    lemma_contains_self(lowercase(records[i].title@));
    law_search_by_title_or_url(records, lowercase(records[i].url@), i);
    law_search_by_title_or_url(records, lowercase(records[i].title@), i);
}

/// The reverse of `v`.
fn reversed(v: &Vec<HistoryRecord>) -> (r: Vec<HistoryRecord>)
    ensures
        r@ == v@.reverse(),
{
    let n = v.len();
    let mut out: Vec<HistoryRecord> = Vec::new();
    let mut i: usize = 0;
    while i < n
        invariant
            n == v.len(),
            i <= n,
            out@ =~= Seq::new(i as nat, |k: int| v@[n - 1 - k]),
        decreases n - i,
    {
        out.push(v[n - 1 - i].duplicate());
        i = i + 1;
    }
    assert(out@ =~= v@.reverse());
    out
}

/// The history and the file it is kept in.
pub struct HistoryStore {
    path: String,
    records: Vec<HistoryRecord>,
}

impl HistoryStore {
    /// The records, oldest first.
    pub closed spec fn record_list(&self) -> Seq<HistoryRecord> {
        self.records@
    }

    /// The path of the history file.
    pub closed spec fn path_view(&self) -> Seq<char> {
        self.path@
    }

    /// A history kept in the file `path`, holding `records`.
    pub fn new(path: String, records: Vec<HistoryRecord>) -> (s: HistoryStore)
        ensures
            s.path_view() == path@,
            s.record_list() == records@,
    {
        HistoryStore { path, records }
    }

    /// The path of the history file.
    pub fn path(&self) -> (p: &String)
        ensures
            p@ == self.path_view(),
    {
        &self.path
    }

    /// The records, oldest first, as they are written to the history file.
    pub fn records(&self) -> (r: &Vec<HistoryRecord>)
        ensures
            r@ == self.record_list(),
    {
        &self.records
    }

    /// Adds a record with the given id and time; returns it.
    pub fn add_record(
        &mut self,
        id: String,
        downloaded_at: String,
        url: &str,
        title: &str,
        format_id: &str,
        ext: &str,
        resolution: &str,
        filesize: &str,
        filepath: &str,
    ) -> (r: HistoryRecord)
        ensures
            record_fields(
                r,
                id@,
                url@,
                title@,
                format_id@,
                ext@,
                resolution@,
                filesize@,
                filepath@,
                downloaded_at@,
            ),
            final(self).record_list() == old(self).record_list().push(r),
            final(self).path_view() == old(self).path_view(),
    {
        let record = HistoryRecord {
            id,
            url: String::from_str(url),
            title: String::from_str(title),
            format_id: String::from_str(format_id),
            ext: String::from_str(ext),
            resolution: String::from_str(resolution),
            filesize: String::from_str(filesize),
            filepath: String::from_str(filepath),
            downloaded_at,
        };
        self.records.push(record.duplicate());
        record
    }

    /// Adds a record of a finished download under a new random id, stamped
    /// with the current time; returns it (`add`). The caller saves the history.
    pub fn add(
        &mut self,
        url: &str,
        title: &str,
        format_id: &str,
        ext: &str,
        resolution: &str,
        filesize: &str,
        filepath: &str,
    ) -> (r: HistoryRecord)
        ensures
            is_uuid_v4_text(r.id@),
            r.downloaded_at@.len() >= 6,
            r.downloaded_at@.subrange(r.downloaded_at@.len() - 6, r.downloaded_at@.len() as int)
                == "+00:00"@,
            record_fields(
                r,
                r.id@,
                url@,
                title@,
                format_id@,
                ext@,
                resolution@,
                filesize@,
                filepath@,
                r.downloaded_at@,
            ),
            final(self).record_list() == old(self).record_list().push(r),
            final(self).path_view() == old(self).path_view(),
    {
        let id = new_uuid_v4();
        let at = utc_now_rfc3339();
        self.add_record(id, at, url, title, format_id, ext, resolution, filesize, filepath)
    }

    /// All records, newest first (`get_all`).
    pub fn get_all(&self) -> (r: Vec<HistoryRecord>)
        ensures
            r@ == self.record_list().reverse(),
    {
        reversed(&self.records)
    }

    /// The records whose title or url contains the query, ignoring case,
    /// newest first (`search`).
    pub fn search(&self, query: &str) -> (r: Vec<HistoryRecord>)
        ensures
            r@ == records_matching(self.record_list(), lowercase(query@)).reverse(),
            is_ascii_chars(query@) ==> r@ == records_matching(
                self.record_list(),
                ascii_lower_text(query@),
            ).reverse(),
            query@.len() == 0 ==> r@ == self.record_list().reverse(),
    {
        let q = to_lowercase(query);
        proof {
            if query@.len() == 0 {
                assert(ascii_lower_text(query@) =~= Seq::<char>::empty());
                lemma_matching_empty(self.record_list());
            }
        }
        let qc = chars_of(q.as_str());
        let mut found: Vec<HistoryRecord> = Vec::new();
        let mut i: usize = 0;
        while i < self.records.len()
            invariant
                i <= self.records.len(),
                qc@ == lowercase(query@),
                found@ == records_matching(self.records@.take(i as int), qc@),
            decreases self.records.len() - i,
        {
            let r = &self.records[i];
            let title = chars_of(to_lowercase(r.title.as_str()).as_str());
            let url = chars_of(to_lowercase(r.url.as_str()).as_str());
            proof {
                assert(self.records@.take(i + 1).drop_last() =~= self.records@.take(i as int));
            }
            if contains_exec(&title, &qc) || contains_exec(&url, &qc) {
                found.push(r.duplicate());
            }
            i = i + 1;
        }
        assert(self.records@.take(self.records@.len() as int) =~= self.records@);
        reversed(&found)
    }

    /// Removes every record with id `id` (`delete`). The caller saves the
    /// history.
    pub fn delete(&mut self, id: &str)
        ensures
            final(self).record_list() == records_without_id(old(self).record_list(), id@),
            final(self).path_view() == old(self).path_view(),
    {
        let key = String::from_str(id);
        let mut kept: Vec<HistoryRecord> = Vec::new();
        let mut i: usize = 0;
        while i < self.records.len()
            invariant
                i <= self.records.len(),
                key@ == id@,
                kept@ == records_without_id(self.records@.take(i as int), id@),
            decreases self.records.len() - i,
        {
            proof {
                assert(self.records@.take(i + 1).drop_last() =~= self.records@.take(i as int));
            }
            if self.records[i].id != key {
                kept.push(self.records[i].duplicate());
            }
            i = i + 1;
        }
        assert(self.records@.take(self.records@.len() as int) =~= self.records@);
        self.records = kept;
    }

    /// Whether some record has url `url` (`has_url`).
    pub fn has_url(&self, url: &str) -> (b: bool)
        ensures
            b == has_url_in(self.record_list(), url@),
    {
        let key = String::from_str(url);
        let mut i: usize = 0;
        while i < self.records.len()
            invariant
                i <= self.records.len(),
                key@ == url@,
                forall|j: int| 0 <= j < i ==> #[trigger] self.records@[j].url@ != url@,
            decreases self.records.len() - i,
        {
            if self.records[i].url == key {
                return true;
            }
            i = i + 1;
        }
        false
    }

    /// The history for a query: the matching records when the query is
    /// present and not empty, otherwise all records; newest first.
    pub fn query(&self, query: Option<String>) -> (r: Vec<HistoryRecord>)
        ensures
            r@ == match query {
                Some(q) => if q@.len() > 0 {
                    records_matching(self.record_list(), lowercase(q@)).reverse()
                } else {
                    self.record_list().reverse()
                },
                None => self.record_list().reverse(),
            },
    {
        match query {
            Some(q) => {
                if !q.as_str().is_empty() {
                    self.search(q.as_str())
                } else {
                    self.get_all()
                }
            },
            None => self.get_all(),
        }
    }
}

} // verus!
