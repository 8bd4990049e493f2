//! The set of languages the engine understands, and how a language is
//! chosen from a file extension.

use vstd::prelude::*;
use crate::text::{lower_seq, str_eq_lower, lemma_lower_fixed};

verus! {

/// The programming language of a source file. Derived once from the file
/// extension and immutable afterwards; used as the key that selects the
/// grammar tables and the parser.
#[derive(Clone, Copy, Debug, PartialEq, Eq, Hash, Structural)]
pub enum Language {
    Rust,
    JavaScript,
    TypeScript,
    Python,
    Go,
    Unknown,
}

/// The language that a file extension selects, ignoring ASCII case.
pub open spec fn language_of_extension(ext: Seq<char>) -> Language {
    let l = lower_seq(ext);
    if l == "rs"@ {
        Language::Rust
    } else if l == "js"@ || l == "jsx"@ || l == "mjs"@ {
        Language::JavaScript
    } else if l == "ts"@ || l == "tsx"@ {
        Language::TypeScript
    } else if l == "py"@ || l == "pyi"@ {
        Language::Python
    } else if l == "go"@ {
        Language::Go
    } else {
        Language::Unknown
    }
}

impl Language {
    /// Detect the language from a file extension, ignoring ASCII case.
    pub fn from_extension(ext: &str) -> (r: Self)
        ensures
            r == language_of_extension(ext@),
    {
        if str_eq_lower(ext, "rs") {
            Language::Rust
        } else if str_eq_lower(ext, "js") || str_eq_lower(ext, "jsx") || str_eq_lower(ext, "mjs") {
            Language::JavaScript
        } else if str_eq_lower(ext, "ts") || str_eq_lower(ext, "tsx") {
            Language::TypeScript
        } else if str_eq_lower(ext, "py") || str_eq_lower(ext, "pyi") {
            Language::Python
        } else if str_eq_lower(ext, "go") {
            Language::Go
        } else {
            Language::Unknown
        }
    }

    /// The file extensions that select this language.
    pub fn extensions(&self) -> (r: Vec<&'static str>)
        ensures
            r.deep_view() == extension_list(*self),
            forall|i: int|
                0 <= i < r@.len() ==> language_of_extension(#[trigger] r@[i]@) == *self,
    {
        proof {
            lemma_extension_table();
        }
        match self {
            Language::Rust => {
                let r: Vec<&'static str> = vec!["rs"];
                assert(forall|i: int|
                    0 <= i < r@.len() ==> language_of_extension(#[trigger] r@[i]@)
                        == Language::Rust) by {
                    assert(r@[0] == "rs");
                }
                proof {
                    assert(r.deep_view() =~~= extension_list(Language::Rust));
                }
                r
            },
            Language::JavaScript => {
                let r: Vec<&'static str> = vec!["js", "jsx", "mjs"];
                assert(forall|i: int|
                    0 <= i < r@.len() ==> language_of_extension(#[trigger] r@[i]@)
                        == Language::JavaScript) by {
                    assert(r@[0] == "js");
                    assert(r@[1] == "jsx");
                    assert(r@[2] == "mjs");
                }
                proof {
                    assert(r.deep_view() =~~= extension_list(Language::JavaScript));
                }
                r
            },
            Language::TypeScript => {
                let r: Vec<&'static str> = vec!["ts", "tsx"];
                assert(forall|i: int|
                    0 <= i < r@.len() ==> language_of_extension(#[trigger] r@[i]@)
                        == Language::TypeScript) by {
                    assert(r@[0] == "ts");
                    assert(r@[1] == "tsx");
                }
                proof {
                    assert(r.deep_view() =~~= extension_list(Language::TypeScript));
                }
                r
            },
            Language::Python => {
                let r: Vec<&'static str> = vec!["py", "pyi"];
                assert(forall|i: int|
                    0 <= i < r@.len() ==> language_of_extension(#[trigger] r@[i]@)
                        == Language::Python) by {
                    assert(r@[0] == "py");
                    assert(r@[1] == "pyi");
                }
                proof {
                    assert(r.deep_view() =~~= extension_list(Language::Python));
                }
                r
            },
            Language::Go => {
                let r: Vec<&'static str> = vec!["go"];
                assert(forall|i: int|
                    0 <= i < r@.len() ==> language_of_extension(#[trigger] r@[i]@)
                        == Language::Go) by {
                    assert(r@[0] == "go");
                }
                proof {
                    assert(r.deep_view() =~~= extension_list(Language::Go));
                }
                r
            },
            Language::Unknown => {
                let r: Vec<&'static str> = Vec::new();
                proof {
                    assert(r.deep_view() =~~= extension_list(Language::Unknown));
                }
                r
            },
        }
    }
}

/// The full list of extensions of each language; the unknown language has
/// none.
pub open spec fn extension_list(lang: Language) -> Seq<Seq<char>> {
    match lang {
        Language::Rust => seq!["rs"@],
        Language::JavaScript => seq!["js"@, "jsx"@, "mjs"@],
        Language::TypeScript => seq!["ts"@, "tsx"@],
        Language::Python => seq!["py"@, "pyi"@],
        Language::Go => seq!["go"@],
        Language::Unknown => Seq::empty(),
    }
}

/// What `language_of_extension` yields on each extension the engine accepts.
pub proof fn lemma_extension_table()
    ensures
        language_of_extension("rs"@) == Language::Rust,
        language_of_extension("js"@) == Language::JavaScript,
        language_of_extension("jsx"@) == Language::JavaScript,
        language_of_extension("mjs"@) == Language::JavaScript,
        language_of_extension("ts"@) == Language::TypeScript,
        language_of_extension("tsx"@) == Language::TypeScript,
        language_of_extension("py"@) == Language::Python,
        language_of_extension("pyi"@) == Language::Python,
        language_of_extension("go"@) == Language::Go,
{
    reveal_strlit("rs");
    reveal_strlit("js");
    reveal_strlit("jsx");
    reveal_strlit("mjs");
    reveal_strlit("ts");
    reveal_strlit("tsx");
    reveal_strlit("py");
    reveal_strlit("pyi");
    reveal_strlit("go");
    lemma_lower_fixed("rs"@);
    lemma_lower_fixed("js"@);
    lemma_lower_fixed("jsx"@);
    lemma_lower_fixed("mjs"@);
    lemma_lower_fixed("ts"@);
    lemma_lower_fixed("tsx"@);
    lemma_lower_fixed("py"@);
    lemma_lower_fixed("pyi"@);
    lemma_lower_fixed("go"@);
    assert("js"@ != "rs"@) by {
        assert("js"@[0] != "rs"@[0]);
    }
    assert("ts"@ != "rs"@) by {
        assert("ts"@[0] != "rs"@[0]);
    }
    assert("ts"@ != "js"@) by {
        assert("ts"@[0] != "js"@[0]);
    }
    assert("py"@ != "rs"@) by {
        assert("py"@[0] != "rs"@[0]);
    }
    assert("py"@ != "js"@) by {
        assert("py"@[0] != "js"@[0]);
    }
    assert("py"@ != "ts"@) by {
        assert("py"@[0] != "ts"@[0]);
    }
    assert("go"@ != "rs"@) by {
        assert("go"@[0] != "rs"@[0]);
    }
    assert("go"@ != "js"@) by {
        assert("go"@[0] != "js"@[0]);
    }
    assert("go"@ != "ts"@) by {
        assert("go"@[0] != "ts"@[0]);
    }
    assert("go"@ != "py"@) by {
        assert("go"@[0] != "py"@[0]);
    }
    assert("tsx"@ != "jsx"@) by {
        assert("tsx"@[0] != "jsx"@[0]);
    }
    assert("tsx"@ != "mjs"@) by {
        assert("tsx"@[0] != "mjs"@[0]);
    }
    assert("pyi"@ != "jsx"@) by {
        assert("pyi"@[0] != "jsx"@[0]);
    }
    assert("pyi"@ != "mjs"@) by {
        assert("pyi"@[0] != "mjs"@[0]);
    }
    assert("pyi"@ != "tsx"@) by {
        assert("pyi"@[0] != "tsx"@[0]);
    }
}

} // verus!
