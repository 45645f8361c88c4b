//! Symbols paired with their documentation, and the flat text each one
//! contributes to downstream ranking.

use vstd::prelude::*;
use crate::strutil;

verus! {

/// A symbol extracted from a crate, as the global index stores it.
#[derive(Debug, Clone)]
pub struct Symbol {
    /// For example `serde::Serialize`.
    pub path: String,
    /// For example `trait`, `struct`, `fn`.
    pub kind: String,
    pub signature: Option<String>,
}

/// Statistics of the global symbol index.
#[derive(Debug)]
pub struct Stats {
    pub crate_count: usize,
    pub symbol_count: usize,
    pub db_size_bytes: u64,
}

/// Extracted information about a crate's public API.
#[derive(Debug)]
pub struct CrateApi {
    pub name: String,
    pub version: String,
    pub symbols: Vec<Symbol>,
    /// Doc comments kept for richer downstream text.
    pub docs: Vec<SymbolDoc>,
}

/// A symbol with its documentation.
#[derive(Debug, Clone)]
pub struct SymbolDoc {
    pub path: String,
    pub kind: String,
    pub signature: Option<String>,
    pub doc: Option<String>,
}

/// The first paragraph of a documentation string: everything before the first
/// blank line, or the whole string when it has none.
pub open spec fn first_paragraph(d: Seq<char>) -> Seq<char> {
    let i = strutil::first_occ(d, "\n\n"@);
    if i < 0 {
        d
    } else {
        d.subrange(0, i)
    }
}

impl SymbolDoc {
    /// The flat text of this symbol: its path, then its signature if any,
    /// then the first non-empty paragraph of its docs, joined by spaces.
    pub open spec fn embedding_text_spec(self) -> Seq<char> {
        let base = self.path@ + match self.signature {
            Some(sig) => " "@ + sig@,
            None => Seq::<char>::empty(),
        };
        base + match self.doc {
            Some(doc) => if first_paragraph(doc@).len() > 0 {
                " "@ + first_paragraph(doc@)
            } else {
                Seq::<char>::empty()
            },
            None => Seq::<char>::empty(),
        }
    }

    /// Builds the text suitable for downstream ranking: path, signature and
    /// first doc paragraph joined by spaces.
    pub fn embedding_text(&self) -> (r: String)
        ensures
            r@ == self.embedding_text_spec(),
    {
        proof {
            reveal_strlit(" ");
        }
        let mut out = self.path.clone();
        match &self.signature {
            Some(sig) => {
                out.append(" ");
                out.append(sig.as_str());
            },
            None => {},
        }
        match &self.doc {
            Some(doc) => {
                let para = match strutil::find_sub(doc.as_str(), "\n\n") {
                    Some(i) => {
                        proof {
                            reveal_strlit("\n\n");
                            strutil::lemma_first_occ_some(doc@, "\n\n"@, 0, i as int);
                        }
                        strutil::substring_copy(doc.as_str(), 0, i)
                    },
                    None => {
                        proof {
                            reveal_strlit("\n\n");
                            assert(forall|j: int| 0 <= j ==> !strutil::occurs_at(doc@, "\n\n"@, j));
                            strutil::lemma_first_occ_none(doc@, "\n\n"@, 0);
                        }
                        doc.clone()
                    },
                };
                if para.as_str().unicode_len() > 0 {
                    out.append(" ");
                    out.append(para.as_str());
                }
            },
            None => {},
        }
        proof {
            assert(out@ =~= self.embedding_text_spec());
        }
        out
    }

    /// Projects this record to the bare symbol that the index stores.
    pub fn to_symbol(&self) -> (r: Symbol)
        ensures
            r.path == self.path,
            r.kind == self.kind,
            r.signature == self.signature,
    {
        Symbol {
            path: self.path.clone(),
            kind: self.kind.clone(),
            signature: strutil::clone_opt_string(&self.signature),
        }
    }
}

} // verus!
