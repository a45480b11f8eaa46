//! The preprocessor: the abbreviation list of one run, built once from the
//! configured table, and its pass over the chapters of a book.

use crate::engine::{all_compile, first_invalid, transform, transformed};
use crate::entry::{views_of, Abbreviation, ConfigError};
use vstd::prelude::*;
use vstd::string::*;

verus! {

/// The pairs of a configured table, as characters and in order.
pub open spec fn pairs_of(table: Seq<(String, String)>) -> Seq<(Seq<char>, Seq<char>)> {
    Seq::new(table.len(), |i: int| (table[i].0@, table[i].1@))
}

/// Turns the configured table, a list of pairs of an abbreviation and its
/// expansion, into entries, one for each pair and in the same order. No table
/// gives no list.
pub fn get_abbr_table(table: Option<Vec<(String, String)>>) -> (out: Option<Vec<Abbreviation>>)
    ensures
        match table {
            Some(pairs) => out matches Some(list) && views_of(list@) == pairs_of(pairs@),
            None => out is None,
        },
{
    match table {
        None => None,
        Some(pairs) => {
            let mut list: Vec<Abbreviation> = Vec::new();
            let mut i: usize = 0;
            while i < pairs.len()
                invariant
                    0 <= i <= pairs.len(),
                    list@.len() == i,
                    views_of(list@) == pairs_of(pairs@).take(i as int),
                decreases pairs.len() - i,
            {
                let entry = Abbreviation {
                    abbr: pairs[i].0.clone(),
                    expanded: pairs[i].1.clone(),
                };
                let ghost before = list@;
                list.push(entry);
                proof {
                    assert forall|k: int| 0 <= k < i + 1 implies views_of(list@)[k] == pairs_of(
                        pairs@,
                    ).take(i + 1)[k] by {
                        if k < i {
                            assert(views_of(before)[k] == pairs_of(pairs@).take(i as int)[k]);
                        }
                    }
                    assert(views_of(list@) =~= pairs_of(pairs@).take(i + 1));
                }
                i += 1;
            }
            proof {
                assert(pairs_of(pairs@).take(pairs@.len() as int) =~= pairs_of(pairs@));
            }
            Some(list)
        },
    }
}

/// The preprocessor with its abbreviation list.
pub struct Abbr {
    /// The entries, in the order in which they are applied.
    pub list: Vec<Abbreviation>,
}

impl View for Abbr {
    type V = Seq<(Seq<char>, Seq<char>)>;

    /// The entries, as characters and in order.
    open spec fn view(&self) -> Seq<(Seq<char>, Seq<char>)> {
        views_of(self.list@)
    }
}

impl Abbr {
    /// The preprocessor for the configured table; without a table its list is
    /// empty.
    pub fn new(table: Option<Vec<(String, String)>>) -> (out: Abbr)
        ensures
            out@ == match table {
                Some(pairs) => pairs_of(pairs@),
                None => Seq::empty(),
            },
    {
        match get_abbr_table(table) {
            Some(list) => Abbr { list },
            None => {
                proof {
                    assert(views_of(Seq::<Abbreviation>::empty()) =~= Seq::empty());
                }
                Abbr { list: Vec::new() }
            },
        }
    }

    /// The name under which the preprocessor is configured.
    pub fn name(&self) -> (name: &'static str)
        ensures
            name@ == "abbr"@,
    {
        "abbr"
    }

    /// Whether the preprocessor works for `renderer`: it does for every one.
    pub fn supports_renderer(&self, renderer: &str) -> (supported: bool)
        ensures
            supported,
    {
        true
    }

    /// Transforms the content of every chapter, each on its own, and hands
    /// the new contents back in the order of the chapters. Fails, with no
    /// content handed back, where there is a chapter and an entry gives no
    /// valid search pattern.
    pub fn run(&self, chapters: &[String]) -> (out: Result<Vec<String>, ConfigError>)
        ensures
            out is Ok <==> chapters@.len() == 0 || all_compile(self@),
            match out {
                Ok(done) => {
                    &&& chapters@.len() > 0 ==> all_compile(self@)
                    &&& done@.len() == chapters@.len()
                    &&& forall|k: int|
                        0 <= k < done@.len() ==> (#[trigger] done@[k])@ == transformed(
                            chapters@[k]@,
                            self@,
                        )
                },
                Err(e) => {
                    &&& chapters@.len() > 0
                    &&& first_invalid(self@, e.index as int)
                    &&& e.abbr@ == self.list@[e.index as int].abbr@
                },
            },
    {
        let mut done: Vec<String> = Vec::new();
        let mut i: usize = 0;
        while i < chapters.len()
            invariant
                0 <= i <= chapters.len(),
                i > 0 ==> all_compile(self@),
                done@.len() == i,
                forall|k: int|
                    0 <= k < i ==> (#[trigger] done@[k])@ == transformed(chapters@[k]@, self@),
            decreases chapters.len() - i,
        {
            match transform(chapters[i].as_str(), self.list.as_slice()) {
                Ok(content) => {
                    done.push(content);
                },
                Err(e) => {
                    return Err(e);
                },
            }
            i += 1;
        }
        Ok(done)
    }
}

} // verus!
