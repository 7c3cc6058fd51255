//! Credential records and the substring query over them.
use vstd::prelude::*;
use vstd::string::StringSliceAdditionalSpecFns;
use vstd::utf8::encode_utf8;

verus! {

/// One stored credential.
#[derive(Debug, Default)]
pub struct Record {
    pub id: String,
    pub title: String,
    pub user: String,
    pub pass: String,
    pub url: String,
    pub notes: String,
}

/// The fields of a record as character sequences.
pub struct RecordView {
    pub id: Seq<char>,
    pub title: Seq<char>,
    pub user: Seq<char>,
    pub pass: Seq<char>,
    pub url: Seq<char>,
    pub notes: Seq<char>,
}

impl View for Record {
    type V = RecordView;

    open spec fn view(&self) -> RecordView {
        RecordView {
            id: self.id@,
            title: self.title@,
            user: self.user@,
            pass: self.pass@,
            url: self.url@,
            notes: self.notes@,
        }
    }
}

/// A record with every field empty.
pub open spec fn empty_record() -> RecordView {
    RecordView {
        id: Seq::empty(),
        title: Seq::empty(),
        user: Seq::empty(),
        pass: Seq::empty(),
        url: Seq::empty(),
        notes: Seq::empty(),
    }
}

/// Whether `needle` occurs as a contiguous run inside `hay`.
pub open spec fn contains_bytes(hay: Seq<u8>, needle: Seq<u8>) -> bool {
    exists|i: int|
        0 <= i && i + needle.len() <= hay.len() && #[trigger] hay.subrange(i, i + needle.len())
            == needle
}

/// Whether the text `hay` contains the text `needle`, compared as UTF-8 bytes.
pub open spec fn text_contains(hay: Seq<char>, needle: Seq<char>) -> bool {
    contains_bytes(encode_utf8(hay), encode_utf8(needle))
}

/// A record answers the query `q` when its title, url or notes contain it.
pub open spec fn record_matches(r: RecordView, q: Seq<char>) -> bool {
    text_contains(r.title, q) || text_contains(r.url, q) || text_contains(r.notes, q)
}

/// The records of `s` that answer `q`, in their order.
pub open spec fn select_matching(s: Seq<RecordView>, q: Seq<char>) -> Seq<RecordView>
    decreases s.len(),
{
    if s.len() == 0 {
        Seq::empty()
    } else {
        let rest = select_matching(s.drop_last(), q);
        if record_matches(s.last(), q) {
            rest.push(s.last())
        } else {
            rest
        }
    }
}

/// The views of a list of records.
pub open spec fn views_of(v: Seq<Record>) -> Seq<RecordView> {
    v.map_values(|r: Record| r@)
}

/// Whether `needle` occurs in `hay`, both as bytes.
pub fn bytes_contain(hay: &[u8], needle: &[u8]) -> (r: bool)
    ensures
        r == contains_bytes(hay@, needle@),
{
    if needle.len() > hay.len() {
        assert forall|i: int|
            0 <= i && i + needle@.len() <= hay@.len() implies #[trigger] hay@.subrange(
            i,
            i + needle@.len(),
        ) != needle@ by {}
        return false;
    }
    let n = hay.len();
    let last = n - needle.len();
    let mut i: usize = 0;
    loop
        invariant
            needle@.len() <= hay@.len(),
            last == hay@.len() - needle@.len(),
            n == hay@.len(),
            i <= last,
            forall|k: int|
                0 <= k < i ==> #[trigger] hay@.subrange(k, k + needle@.len()) != needle@,
        decreases last - i,
    {
        let mut j: usize = 0;
        let mut same = true;
        while j < needle.len()
            invariant
                needle@.len() <= hay@.len(),
                i <= last,
                last + needle@.len() == hay@.len(),
                n == hay@.len(),
                j <= needle@.len(),
                same == (forall|m: int| 0 <= m < j ==> hay@[i + m] == needle@[m]),
            decreases needle@.len() - j,
        {
            if hay[i + j] != needle[j] {
                same = false;
            }
            j = j + 1;
        }
        if same {
            assert(hay@.subrange(i as int, i + needle@.len()) =~= needle@);
            return true;
        }
        assert(hay@.subrange(i as int, i + needle@.len()) != needle@) by {
            let m = choose|m: int| 0 <= m < needle@.len() && hay@[i + m] != needle@[m];
            assert(hay@.subrange(i as int, i + needle@.len())[m] == hay@[i + m]);
        }
        if i == last {
            return false;
        }
        i = i + 1;
    }
}

/// Whether the text `hay` contains the text `needle`.
pub fn text_contains_exec(hay: &str, needle: &str) -> (r: bool)
    ensures
        r == text_contains(hay@, needle@),
{
    bytes_contain(hay.as_bytes(), needle.as_bytes())
}

impl Record {
    /// A record from its six fields.
    pub fn new(id: String, title: String, user: String, pass: String, url: String, notes: String) -> (r: Record)
        ensures
            r.id@ == id@,
            r.title@ == title@,
            r.user@ == user@,
            r.pass@ == pass@,
            r.url@ == url@,
            r.notes@ == notes@,
    {
        Record { id, title, user, pass, url, notes }
    }

    /// A record with every field empty.
    pub fn empty() -> (r: Record)
        ensures
            r@ == empty_record(),
    {
        Record {
            id: String::new(),
            title: String::new(),
            user: String::new(),
            pass: String::new(),
            url: String::new(),
            notes: String::new(),
        }
    }

    /// A field-by-field copy.
    pub fn copy(&self) -> (r: Record)
        ensures
            r@ == self@,
    {
        Record {
            id: self.id.clone(),
            title: self.title.clone(),
            user: self.user.clone(),
            pass: self.pass.clone(),
            url: self.url.clone(),
            notes: self.notes.clone(),
        }
    }

    /// Whether the title, url or notes contain `q`.
    pub fn matches(&self, q: &str) -> (r: bool)
        ensures
            r == record_matches(self@, q@),
    {
        text_contains_exec(self.title.as_str(), q) || text_contains_exec(self.url.as_str(), q)
            || text_contains_exec(self.notes.as_str(), q)
    }
}

/// The records whose title, url or notes contain `q`, in their order; an
/// empty query keeps them all.
pub fn filter_records(recs: &Vec<Record>, q: &str) -> (r: Vec<Record>)
    ensures
        views_of(r@) == select_matching(views_of(recs@), q@),
{
    let mut out: Vec<Record> = Vec::new();
    let mut i: usize = 0;
    while i < recs.len()
        invariant
            i <= recs@.len(),
            views_of(out@) == select_matching(views_of(recs@.subrange(0, i as int)), q@),
        decreases recs@.len() - i,
    {
        let ghost before = out@;
        if recs[i].matches(q) {
            out.push(recs[i].copy());
        }
        proof {
            let s = views_of(recs@.subrange(0, i + 1));
            assert(s.drop_last() =~= views_of(recs@.subrange(0, i as int)));
            assert(s.last() == recs@[i as int]@);
            if record_matches(recs@[i as int]@, q@) {
                assert(views_of(out@) =~= views_of(before).push(recs@[i as int]@));
            } else {
                assert(views_of(out@) =~= views_of(before));
            }
        }
        i = i + 1;
    }
    assert(recs@.subrange(0, recs@.len() as int) =~= recs@);
    out
}

/// The empty query keeps every record.
pub proof fn lemma_empty_query_keeps_all(s: Seq<RecordView>, q: Seq<char>)
    requires
        q.len() == 0,
    ensures
        select_matching(s, q) == s,
    decreases s.len(),
{
    if s.len() > 0 {
        lemma_empty_query_keeps_all(s.drop_last(), q);
        assert(encode_utf8(q) =~= Seq::<u8>::empty());
        let t = encode_utf8(s.last().title);
        assert(t.subrange(0int, 0int + encode_utf8(q).len()) =~= encode_utf8(q));
        assert(contains_bytes(t, encode_utf8(q)));
        assert(s.drop_last().push(s.last()) =~= s);
    }
}

} // verus!
