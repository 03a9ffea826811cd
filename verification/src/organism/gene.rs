//! Genetic information: a gene's sequence is derived from its name, one
//! base per character.

use vstd::prelude::*;
use vstd::string::{StringExecFns, StrSliceExecFns};

verus! {

/// The base a name character encodes: its code point modulo four picks one
/// of the four bases.
pub open spec fn spec_base_of(c: char) -> char {
    if c as int % 4 == 0 {
        'a'
    } else if c as int % 4 == 1 {
        'c'
    } else if c as int % 4 == 2 {
        'g'
    } else {
        't'
    }
}

/// The whole sequence a gene name encodes.
pub open spec fn spec_gene_sequence(name: Seq<char>) -> Seq<char> {
    name.map(|i: int, c: char| spec_base_of(c))
}

/// A gene: a name and the base sequence derived from it.
pub struct Gene {
    pub name: String,
    pub sequence: String,
}

impl Gene {
    /// Build the gene with the given name; its sequence encodes the name,
    /// one base per character.
    pub fn new(name: &str) -> (r: Gene)
        ensures
            r.name@ == name@,
            r.sequence@ == spec_gene_sequence(name@),
    {
        let n = name.unicode_len();
        let mut sequence = String::new();
        let mut i: usize = 0;
        while i < n
            invariant
                n == name@.len(),
                i <= n,
                sequence@ == spec_gene_sequence(name@.take(i as int)),
            decreases n - i,
        {
            let c = name.get_char(i);
            let code = c as u32;
            if code % 4 == 0 {
                proof {
                    reveal_strlit("a");
                }
                sequence.append("a");
            } else if code % 4 == 1 {
                proof {
                    reveal_strlit("c");
                }
                sequence.append("c");
            } else if code % 4 == 2 {
                proof {
                    reveal_strlit("g");
                }
                sequence.append("g");
            } else {
                proof {
                    reveal_strlit("t");
                }
                sequence.append("t");
            }
            proof {
                assert(sequence@ =~= spec_gene_sequence(name@.take(i + 1)));
            }
            i = i + 1;
        }
        proof {
            assert(name@.take(n as int) =~= name@);
        }
        Gene { name: name.to_owned(), sequence }
    }
}

/// A trait carried by an organism: each stat names the gene it comes from.
pub trait Stat {
    fn gene(&self) -> Gene;
}

} // verus!
