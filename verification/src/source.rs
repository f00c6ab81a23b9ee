//! What a source file is taken to be, as read off its path.

use vstd::prelude::*;
use vstd::string::StringSliceAdditionalSpecFns;

verus! {

/// The three things that a file's path tells about its text.
#[derive(Clone, Copy, Debug, PartialEq, Eq, Structural, Hash)]
pub struct SourceTraits {
    /// The text is TypeScript, not JavaScript.
    pub typescript: bool,
    /// JSX elements may occur in the text.
    pub jsx: bool,
    /// The text is a module, not a script.
    pub module: bool,
}

/// The classification of a source text.
#[derive(Clone, Copy, Debug, PartialEq, Eq, Structural, Hash)]
pub enum SourceType {
    Script,
    Module,
    Jsx,
    Ts,
    Tsx,
}

impl SourceType {
    /// The classification that three traits amount to: the language and its
    /// JSX variant decide first, then module against script.
    pub open spec fn spec_from_traits(t: SourceTraits) -> SourceType {
        if t.typescript {
            if t.jsx {
                SourceType::Tsx
            } else {
                SourceType::Ts
            }
        } else if t.jsx {
            SourceType::Jsx
        } else if t.module {
            SourceType::Module
        } else {
            SourceType::Script
        }
    }

    #[verifier::when_used_as_spec(spec_from_traits)]
    pub fn from_traits(t: SourceTraits) -> (s: SourceType)
        ensures
            s == Self::spec_from_traits(t),
    {
        if t.typescript {
            if t.jsx {
                SourceType::Tsx
            } else {
                SourceType::Ts
            }
        } else if t.jsx {
            SourceType::Jsx
        } else if t.module {
            SourceType::Module
        } else {
            SourceType::Script
        }
    }

    /// Type syntax may occur in a text of this classification.
    pub open spec fn spec_is_typescript(self) -> bool {
        self == SourceType::Ts || self == SourceType::Tsx
    }

    #[verifier::when_used_as_spec(spec_is_typescript)]
    pub fn is_typescript(self) -> (r: bool)
        ensures
            r == self.spec_is_typescript(),
    {
        match self {
            SourceType::Ts | SourceType::Tsx => true,
            _ => false,
        }
    }

    /// JSX elements may occur in a text of this classification.
    pub open spec fn spec_is_jsx(self) -> bool {
        self == SourceType::Jsx || self == SourceType::Tsx
    }

    #[verifier::when_used_as_spec(spec_is_jsx)]
    pub fn is_jsx(self) -> (r: bool)
        ensures
            r == self.spec_is_jsx(),
    {
        match self {
            SourceType::Jsx | SourceType::Tsx => true,
            _ => false,
        }
    }
}

/// Calls `oxc_span::SourceType::from_path` and copies out what it reports:
/// the traits of the file, or `None` where the path has no file name or no
/// extension of a script. Trusted: whatever the path, that function takes a
/// file it accepts for a module, and takes JavaScript to allow JSX. Which
/// paths it accepts is left open here; it goes by the platform's reading of
/// paths.
#[verifier::external_body]
fn traits_from_path(path: &str) -> (r: Option<SourceTraits>)
    ensures
        r matches Some(t) ==> t.module && (t.typescript || t.jsx),
{
    match oxc_span::SourceType::from_path(path) {
        Ok(t) => Some(
            SourceTraits { typescript: t.is_typescript(), jsx: t.is_jsx(), module: t.is_module() },
        ),
        Err(_) => None,
    }
}

/// The classification of the file at `path`, or `None` where its path is
/// not one of a script. A file that is classified is TypeScript, with or
/// without JSX, or JavaScript with JSX.
pub fn source_type_from_path(path: &str) -> (r: Option<SourceType>)
    ensures
        r is None || r == Some(SourceType::Ts) || r == Some(SourceType::Tsx) || r == Some(
            SourceType::Jsx,
        ),
        exists|found: Option<SourceTraits>| r == source_type_of(found),
{
    let found = traits_from_path(path);
    let r = classify(found);
    assert(r == source_type_of(found));
    r
}

/// The classification that the traits found for a path amount to.
pub open spec fn source_type_of(found: Option<SourceTraits>) -> Option<SourceType> {
    match found {
        Some(t) => Some(SourceType::spec_from_traits(t)),
        None => None,
    }
}

/// Classifies a file by the traits found for its path.
pub fn classify(found: Option<SourceTraits>) -> (r: Option<SourceType>)
    ensures
        r == source_type_of(found),
{
    match found {
        Some(t) => Some(SourceType::from_traits(t)),
        None => None,
    }
}

/// A source text with what it is taken to be. The text is never changed.
#[derive(Clone, Copy, Debug)]
pub struct SourceBuffer<'a> {
    text: &'a str,
    source_type: SourceType,
}

impl<'a> SourceBuffer<'a> {
    /// The characters of the text.
    pub closed spec fn chars(&self) -> Seq<char> {
        self.text@
    }

    /// The bytes of the text.
    pub closed spec fn bytes(&self) -> Seq<u8> {
        self.text.spec_bytes()
    }

    /// The classification of the text.
    pub closed spec fn kind(&self) -> SourceType {
        self.source_type
    }

    /// A buffer over `text`, classified as `source_type`.
    pub fn new(text: &'a str, source_type: SourceType) -> (b: SourceBuffer<'a>)
        ensures
            b.chars() == text@,
            b.bytes() == text.spec_bytes(),
            b.kind() == source_type,
    {
        SourceBuffer { text, source_type }
    }

    /// The text.
    pub fn text(&self) -> (t: &'a str)
        ensures
            t@ == self.chars(),
            t.spec_bytes() == self.bytes(),
    {
        self.text
    }

    /// The classification of the text.
    pub fn source_type(&self) -> (t: SourceType)
        ensures
            t == self.kind(),
    {
        self.source_type
    }
}

} // verus!
