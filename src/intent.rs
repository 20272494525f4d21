//! Keyword-based intent classification of free-text queries.
use vstd::prelude::*;
use crate::text::{contains, contains_spec, lower_of, lowercase};

verus! {

#[derive(Clone, Copy, Debug, PartialEq, Eq, Structural)]
pub enum Intent {
    FindFiles,
    FindByType,
    FindByDate,
    FindBySize,
    FindByContent,
    FindRecent,
    FindLarge,
    FindDuplicate,
    OpenFile,
    Unknown,
}

#[derive(Clone, Copy, Debug, PartialEq, Eq, Structural, Hash)]
pub enum EntityType {
    FileName,
    FileType,
    Date,
    Size,
    Content,
    Location,
}

/// Keywords, each with the intent it signals, tried in order.
pub struct IntentClassifier {
    patterns: Vec<(String, Intent)>,
}

/// The intent of the first keyword that occurs in `q`; `FindFiles` when
/// none does.
pub open spec fn first_intent(patterns: Seq<(Seq<char>, Intent)>, q: Seq<char>) -> Intent
    decreases patterns.len(),
{
    if patterns.len() == 0 {
        Intent::FindFiles
    } else if contains_spec(q, patterns[0].0) {
        patterns[0].1
    } else {
        first_intent(patterns.drop_first(), q)
    }
}

pub open spec fn keyword_table() -> Seq<(Seq<char>, Intent)> {
    seq![
        (seq!['f', 'i', 'n', 'd'], Intent::FindFiles),
        (seq!['s', 'e', 'a', 'r', 'c', 'h'], Intent::FindFiles),
        (seq!['l', 'o', 'o', 'k', ' ', 'f', 'o', 'r'], Intent::FindFiles),
        (seq!['p', 'd', 'f'], Intent::FindByType),
        (seq!['i', 'm', 'a', 'g', 'e'], Intent::FindByType),
        (seq!['v', 'i', 'd', 'e', 'o'], Intent::FindByType),
        (seq!['d', 'o', 'c', 'u', 'm', 'e', 'n', 't'], Intent::FindByType),
        (seq!['t', 'o', 'd', 'a', 'y'], Intent::FindByDate),
        (seq!['y', 'e', 's', 't', 'e', 'r', 'd', 'a', 'y'], Intent::FindByDate),
        (seq!['l', 'a', 's', 't', ' ', 'w', 'e', 'e', 'k'], Intent::FindByDate),
        (seq!['l', 'a', 'r', 'g', 'e'], Intent::FindBySize),
        (seq!['b', 'i', 'g'], Intent::FindBySize),
        (seq!['s', 'm', 'a', 'l', 'l'], Intent::FindBySize),
        (seq!['c', 'o', 'n', 't', 'e', 'n', 't'], Intent::FindByContent),
        (seq!['c', 'o', 'n', 't', 'a', 'i', 'n', 's'], Intent::FindByContent),
        (seq!['r', 'e', 'c', 'e', 'n', 't'], Intent::FindRecent),
        (seq!['o', 'p', 'e', 'n'], Intent::OpenFile),
    ]
}

fn entry(k: &str, i: Intent) -> (r: (String, Intent))
    ensures
        r.0@ == k@,
        r.1 == i,
{
    (k.to_owned(), i)
}

impl IntentClassifier {
    /// The keyword table, in the order `classify` tries it.
    pub closed spec fn table(&self) -> Seq<(Seq<char>, Intent)> {
        self.patterns@.map_values(|p: (String, Intent)| (p.0@, p.1))
    }

    /// The classifier with the built-in keyword table.
    pub fn new() -> (r: IntentClassifier)
        ensures
            r.table() == keyword_table(),
    {
        let mut patterns: Vec<(String, Intent)> = Vec::new();
        patterns.push(entry("find", Intent::FindFiles));
        patterns.push(entry("search", Intent::FindFiles));
        patterns.push(entry("look for", Intent::FindFiles));
        patterns.push(entry("pdf", Intent::FindByType));
        patterns.push(entry("image", Intent::FindByType));
        patterns.push(entry("video", Intent::FindByType));
        patterns.push(entry("document", Intent::FindByType));
        patterns.push(entry("today", Intent::FindByDate));
        patterns.push(entry("yesterday", Intent::FindByDate));
        patterns.push(entry("last week", Intent::FindByDate));
        patterns.push(entry("large", Intent::FindBySize));
        patterns.push(entry("big", Intent::FindBySize));
        patterns.push(entry("small", Intent::FindBySize));
        patterns.push(entry("content", Intent::FindByContent));
        patterns.push(entry("contains", Intent::FindByContent));
        patterns.push(entry("recent", Intent::FindRecent));
        patterns.push(entry("open", Intent::OpenFile));
        let r = IntentClassifier { patterns };
        proof {
            reveal_strlit("find");
            reveal_strlit("search");
            reveal_strlit("look for");
            reveal_strlit("pdf");
            reveal_strlit("image");
            reveal_strlit("video");
            reveal_strlit("document");
            reveal_strlit("today");
            reveal_strlit("yesterday");
            reveal_strlit("last week");
            reveal_strlit("large");
            reveal_strlit("big");
            reveal_strlit("small");
            reveal_strlit("content");
            reveal_strlit("contains");
            reveal_strlit("recent");
            reveal_strlit("open");
            assert(r.patterns@[0].0@ =~= seq!['f', 'i', 'n', 'd']);
            assert(r.patterns@[1].0@ =~= seq!['s', 'e', 'a', 'r', 'c', 'h']);
            assert(r.patterns@[2].0@ =~= seq!['l', 'o', 'o', 'k', ' ', 'f', 'o', 'r']);
            assert(r.patterns@[3].0@ =~= seq!['p', 'd', 'f']);
            assert(r.patterns@[4].0@ =~= seq!['i', 'm', 'a', 'g', 'e']);
            assert(r.patterns@[5].0@ =~= seq!['v', 'i', 'd', 'e', 'o']);
            assert(r.patterns@[6].0@ =~= seq!['d', 'o', 'c', 'u', 'm', 'e', 'n', 't']);
            assert(r.patterns@[7].0@ =~= seq!['t', 'o', 'd', 'a', 'y']);
            assert(r.patterns@[8].0@ =~= seq!['y', 'e', 's', 't', 'e', 'r', 'd', 'a', 'y']);
            assert(r.patterns@[9].0@ =~= seq!['l', 'a', 's', 't', ' ', 'w', 'e', 'e', 'k']);
            assert(r.patterns@[10].0@ =~= seq!['l', 'a', 'r', 'g', 'e']);
            assert(r.patterns@[11].0@ =~= seq!['b', 'i', 'g']);
            assert(r.patterns@[12].0@ =~= seq!['s', 'm', 'a', 'l', 'l']);
            assert(r.patterns@[13].0@ =~= seq!['c', 'o', 'n', 't', 'e', 'n', 't']);
            assert(r.patterns@[14].0@ =~= seq!['c', 'o', 'n', 't', 'a', 'i', 'n', 's']);
            assert(r.patterns@[15].0@ =~= seq!['r', 'e', 'c', 'e', 'n', 't']);
            assert(r.patterns@[16].0@ =~= seq!['o', 'p', 'e', 'n']);
            assert(r.table() =~= keyword_table());
        }
        r
    }

    /// The intent of the first keyword found in the lower-cased query;
    /// `FindFiles` when none is found.
    pub fn classify(&self, query: &str) -> (r: Intent)
        ensures
            r == first_intent(self.table(), lower_of(query@)),
    {
        let ql = lowercase(query);
        let ghost t = self.table();
        let mut i: usize = 0;
        assert(t.skip(0) =~= t);
        while i < self.patterns.len()
            invariant
                i <= self.patterns@.len() == t.len(),
                t == self.table(),
                ql@ == lower_of(query@),
                first_intent(t, lower_of(query@)) == first_intent(t.skip(i as int), lower_of(query@)),
            decreases self.patterns@.len() - i,
        {
            assert(t.skip(i as int)[0] == (self.patterns@[i as int].0@, self.patterns@[i as int].1));
            assert(t.skip(i as int).drop_first() =~= t.skip(i + 1));
            if contains(ql.as_str(), self.patterns[i].0.as_str()) {
                return self.patterns[i].1;
            }
            i = i + 1;
        }
        Intent::FindFiles
    }
}

} // verus!
