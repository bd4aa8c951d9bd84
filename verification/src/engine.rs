//! The engine around the core: registered template folders, the default
//! page, and the compilation pipeline from raw bytes to the token tree.
//!
//! Resolving and reading files is the serving layer's concern: it checks
//! that a folder or file exists and hands the outcome in as a plain flag,
//! and it reads the chosen file and hands the bytes in.  The decisions on
//! those values — what is registered, which error is reported, what the
//! bytes compile to — are made and verified here.

use vstd::prelude::*;

use crate::lexer::{lex_result_view, lex_spec, LexError, Lexer, SegV};
use crate::parse_error::{ParseErrV, ParseError};
use crate::parser::{parse_result_view, parse_spec, Parser};
use crate::token::{tokens_view, TokenV, Tokens};

verus! {

/// A failure of the serving layer's collaborator contract.
#[derive(Debug, Clone, Copy, PartialEq, Eq, Structural)]
pub enum OctanolError {
    FolderNotFound,
    FileNotFound,
}

/// A failure of the compilation pipeline: lexing or parsing.
#[derive(Debug, Clone, PartialEq, Eq)]
pub enum TemplateError {
    Lex(LexError),
    Parse(ParseError),
}

/// Model of a [`TemplateError`].
#[verifier::ext_equal]
pub enum TemplateErrV {
    Lex(LexError),
    Parse(ParseErrV),
}

impl View for TemplateError {
    type V = TemplateErrV;

    open spec fn view(&self) -> TemplateErrV {
        match self {
            TemplateError::Lex(e) => TemplateErrV::Lex(*e),
            TemplateError::Parse(e) => TemplateErrV::Parse(e@),
        }
    }
}

/// The token tree denoted by the raw bytes of one template: the lex result
/// fed to the parser, with the first failure reported.
pub open spec fn compile_spec(input: Seq<u8>) -> Result<Seq<TokenV>, TemplateErrV> {
    match lex_spec(input) {
        Err(e) => Err(TemplateErrV::Lex(e)),
        Ok(segs) => match parse_spec(segs) {
            Ok(ts) => Ok(ts),
            Err(e) => Err(TemplateErrV::Parse(e)),
        },
    }
}

/// The model of an exec compilation result.
pub open spec fn compile_result_view(r: Result<Tokens, TemplateError>) -> Result<
    Seq<TokenV>,
    TemplateErrV,
> {
    match r {
        Ok(ts) => Ok(tokens_view(ts@)),
        Err(e) => Err(e@),
    }
}

/// Compilation is a function of the bytes alone: equal buffers compile to
/// structurally identical trees (or the identical error).  No state
/// persists between invocations, so parsing the same buffer twice, in any
/// order or from any thread, yields the same result.
pub proof fn lemma_compile_deterministic(a: Seq<u8>, b: Seq<u8>)
    requires
        a == b,
    ensures
        compile_spec(a) == compile_spec(b),
{
}

/// The engine configuration: registered template folders and the optional
/// default page, as plain path strings.
#[derive(Debug, Clone)]
pub struct Octanol {
    serve_folders: Vec<String>,
    default_page: Option<String>,
}

/// The compilation engine over one [`Octanol`] configuration.
#[derive(Debug, Clone)]
pub struct Engine {
    octanol: Octanol,
}

impl Octanol {
    /// The registered folder paths.
    pub closed spec fn spec_folders(self) -> Seq<Seq<char>> {
        self.serve_folders@.map_values(|s: String| s@)
    }

    /// The registered default page, if one was set.
    pub closed spec fn spec_default_page(self) -> Option<Seq<char>> {
        match self.default_page {
            Option::Some(p) => Option::Some(p@),
            Option::None => Option::None,
        }
    }

    /// A fresh configuration: no folders, no default page.
    pub fn new() -> (r: Self)
        ensures
            r.spec_folders() == Seq::<Seq<char>>::empty(),
            r.spec_default_page() is None,
    {
        let r = Octanol { serve_folders: Vec::new(), default_page: Option::None };
        proof {
            assert(r.spec_folders() =~= Seq::<Seq<char>>::empty());
        }
        r
    }

    /// Registers a template folder.  `exists` is the serving layer's answer
    /// to whether the folder is present on disk: a missing folder is
    /// [`OctanolError::FolderNotFound`] and nothing is registered.
    pub fn register_folder(&mut self, folder_name: String, exists: bool) -> (r: Result<
        (),
        OctanolError,
    >)
        ensures
            exists ==> r is Ok && final(self).spec_folders() == old(self).spec_folders().push(
                folder_name@,
            ) && final(self).spec_default_page() == old(self).spec_default_page(),
            !exists ==> r == Err::<(), OctanolError>(OctanolError::FolderNotFound) && *final(self)
                == *old(self),
    {
        if exists {
            self.serve_folders.push(folder_name);
            proof {
                assert(self.spec_folders() =~= old(self).spec_folders().push(
                    self.serve_folders@.last()@,
                ));
            }
            Ok(())
        } else {
            Err(OctanolError::FolderNotFound)
        }
    }

    /// Registers the default page.  `exists` is the serving layer's answer
    /// to whether the file is present on disk: a missing file is
    /// [`OctanolError::FileNotFound`] and nothing is registered.
    pub fn set_default_page(&mut self, default_page: String, exists: bool) -> (r: Result<
        (),
        OctanolError,
    >)
        ensures
            exists ==> r is Ok && final(self).spec_default_page() == Option::Some(default_page@)
                && final(self).spec_folders() == old(self).spec_folders(),
            !exists ==> r == Err::<(), OctanolError>(OctanolError::FileNotFound) && *final(self)
                == *old(self),
    {
        if exists {
            self.default_page = Option::Some(default_page);
            Ok(())
        } else {
            Err(OctanolError::FileNotFound)
        }
    }

    /// The page the engine will serve by default: the registered default
    /// page, or `index.octml` when none was set.
    pub fn default_page_name(&self) -> (r: String)
        ensures
            match self.spec_default_page() {
                Option::Some(p) => r@ == p,
                Option::None => r@ == "index.octml"@,
            },
    {
        match &self.default_page {
            Option::Some(p) => p.clone(),
            Option::None => "index.octml".to_owned(),
        }
    }

    /// Compiles the raw byte content of one template through the full
    /// pipeline: lex, then parse.
    pub fn run(self, contents: Vec<u8>) -> (r: Result<Tokens, TemplateError>)
        ensures
            compile_result_view(r) == compile_spec(contents@),
    {
        Engine::with_instance(self).run(contents)
    }
}

impl Default for Octanol {
    /// A fresh configuration, as [`Octanol::new`] builds it.
    fn default() -> (r: Self)
        ensures
            r.spec_folders() == Seq::<Seq<char>>::empty(),
            r.spec_default_page() is None,
    {
        Octanol::new()
    }
}

impl Default for Engine {
    /// An engine over a fresh configuration, as [`Engine::new`] builds it.
    fn default() -> (r: Self)
        ensures
            r.octanol_ref().spec_folders() == Seq::<Seq<char>>::empty(),
            r.octanol_ref().spec_default_page() is None,
    {
        Engine::new()
    }
}

impl Engine {
    /// An engine over a fresh configuration.
    pub fn new() -> (r: Self)
        ensures
            r.octanol_ref().spec_folders() == Seq::<Seq<char>>::empty(),
            r.octanol_ref().spec_default_page() is None,
    {
        Engine { octanol: Octanol::new() }
    }

    /// An engine over the given configuration.
    pub fn with_instance(octanol: Octanol) -> (r: Self)
        ensures
            r.octanol_ref() == octanol,
    {
        Engine { octanol }
    }

    /// The configuration this engine serves.
    pub closed spec fn octanol_ref(self) -> Octanol {
        self.octanol
    }

    /// Compiles the raw byte content of one template: lexes it into
    /// segments and parses those into the token tree, reporting the first
    /// structural error.
    pub fn run(self, contents: Vec<u8>) -> (r: Result<Tokens, TemplateError>)
        ensures
            compile_result_view(r) == compile_spec(contents@),
    {
        match Lexer::lex(contents) {
            Err(e) => Err(TemplateError::Lex(e)),
            Ok(segs) => {
                proof {
                    assert(lex_spec(contents@) == Ok::<Seq<SegV>, LexError>(
                        crate::lexer::segs_view(segs@),
                    ));
                }
                match Parser::parse(segs) {
                    Ok(ts) => Ok(ts),
                    Err(e) => Err(TemplateError::Parse(e)),
                }
            }
        }
    }
}

} // verus!
