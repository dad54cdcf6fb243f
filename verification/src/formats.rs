//! The format names the command line and the server speak: configuration
//! file formats, front-matter formats, payload (response) formats, and the
//! generic serialized formats shared by the latter two, together with the
//! extension-to-format and code-to-format mappings.

use vstd::prelude::*;
use vstd::string::StrSliceExecFns;
use vstd::string::StringExecFns;

use crate::text::{replace_all, replace_all_spec, str_eq};

verus! {

broadcast use vstd::string::group_string_axioms;

/// A format a configuration file can be written in.
#[derive(Debug, Clone, Copy, PartialEq, Eq, Structural)]
pub enum ConfigFormats {
    Json,
    Yaml,
    Toml,
}

/// A front-matter format: one of the generic formats, or the custom
/// reference-definition header.
#[derive(Debug, Clone, Copy, PartialEq, Eq, Structural)]
pub enum MatterFormats {
    Refdef,
    Json,
    Yaml,
    Toml,
}

/// A format a processed document can be returned in.
#[derive(Debug, Clone, Copy, PartialEq, Eq, Structural)]
pub enum PayloadFormats {
    Html,
    Markdown,
    Json,
    Yaml,
    Toml,
    Csv,
    Pickle,
    Postcard,
    Cbor,
}

/// A generic serialized format, shared by front matter and payloads.
#[derive(Debug, Clone, Copy, PartialEq, Eq, Structural)]
pub enum GenericFormats {
    Json,
    Yaml,
    Toml,
    Csv,
    Pickle,
    Postcard,
    Cbor,
}

/// A shorter name for the configuration-file formats.
pub type Config = ConfigFormats;

/// A shorter name for the front-matter formats.
pub type Matter = MatterFormats;

/// A shorter name for the generic serialized formats.
pub type Generic = GenericFormats;

/// Why a format name or code was rejected.
#[derive(Debug, PartialEq, Eq)]
pub enum FormatError {
    /// The file extension names no known format of the expected family.
    UnsupportedExtension(String),
    /// The numeric code names no generic format.
    UnrecognisedCode(u8),
    /// The format has no generic counterpart.
    NotGeneric,
}

impl GenericFormats {
    /// The stable numeric code of each generic format.
    pub fn code(&self) -> (c: u8)
        ensures
            c == match *self {
                GenericFormats::Json => 3u8,
                GenericFormats::Yaml => 4u8,
                GenericFormats::Toml => 5u8,
                GenericFormats::Csv => 6u8,
                GenericFormats::Pickle => 7u8,
                GenericFormats::Postcard => 8u8,
                GenericFormats::Cbor => 9u8,
            },
    {
        match self {
            GenericFormats::Json => 3,
            GenericFormats::Yaml => 4,
            GenericFormats::Toml => 5,
            GenericFormats::Csv => 6,
            GenericFormats::Pickle => 7,
            GenericFormats::Postcard => 8,
            GenericFormats::Cbor => 9,
        }
    }

    /// The written name of each generic format.
    pub fn as_str(&self) -> (r: &'static str)
        ensures
            r@ == self.spec_name(),
    {
        let r: &'static str = match self {
            GenericFormats::Json => "json",
            GenericFormats::Yaml => "yaml",
            GenericFormats::Toml => "toml",
            GenericFormats::Csv => "csv",
            GenericFormats::Pickle => "pickle",
            GenericFormats::Postcard => "postcard",
            GenericFormats::Cbor => "cbor",
        };
        r
    }

    /// The written name of each generic format.
    pub open spec fn spec_name(self) -> Seq<char> {
        match self {
            GenericFormats::Json => "json"@,
            GenericFormats::Yaml => "yaml"@,
            GenericFormats::Toml => "toml"@,
            GenericFormats::Csv => "csv"@,
            GenericFormats::Pickle => "pickle"@,
            GenericFormats::Postcard => "postcard"@,
            GenericFormats::Cbor => "cbor"@,
        }
    }

    /// The generic format a numeric code names, if any.
    pub fn try_from_code(value: u8) -> (r: Result<GenericFormats, FormatError>)
        ensures
            r == match value {
                3u8 => Ok::<GenericFormats, FormatError>(GenericFormats::Json),
                4u8 => Ok(GenericFormats::Yaml),
                5u8 => Ok(GenericFormats::Toml),
                6u8 => Ok(GenericFormats::Csv),
                7u8 => Ok(GenericFormats::Pickle),
                8u8 => Ok(GenericFormats::Postcard),
                9u8 => Ok(GenericFormats::Cbor),
                _ => Err(FormatError::UnrecognisedCode(value)),
            },
    {
        match value {
            3 => Ok(GenericFormats::Json),
            4 => Ok(GenericFormats::Yaml),
            5 => Ok(GenericFormats::Toml),
            6 => Ok(GenericFormats::Csv),
            7 => Ok(GenericFormats::Pickle),
            8 => Ok(GenericFormats::Postcard),
            9 => Ok(GenericFormats::Cbor),
            _ => Err(FormatError::UnrecognisedCode(value)),
        }
    }

    /// The generic counterpart of a payload format, if it has one.
    pub fn try_from_payload(value: &PayloadFormats) -> (r: Result<GenericFormats, FormatError>)
        ensures
            r == match *value {
                PayloadFormats::Html => Err::<GenericFormats, FormatError>(FormatError::NotGeneric),
                PayloadFormats::Markdown => Err(FormatError::NotGeneric),
                PayloadFormats::Json => Ok(GenericFormats::Json),
                PayloadFormats::Yaml => Ok(GenericFormats::Yaml),
                PayloadFormats::Toml => Ok(GenericFormats::Toml),
                PayloadFormats::Csv => Ok(GenericFormats::Csv),
                PayloadFormats::Pickle => Ok(GenericFormats::Pickle),
                PayloadFormats::Postcard => Ok(GenericFormats::Postcard),
                PayloadFormats::Cbor => Ok(GenericFormats::Cbor),
            },
    {
        match value {
            PayloadFormats::Html => Err(FormatError::NotGeneric),
            PayloadFormats::Markdown => Err(FormatError::NotGeneric),
            PayloadFormats::Json => Ok(GenericFormats::Json),
            PayloadFormats::Yaml => Ok(GenericFormats::Yaml),
            PayloadFormats::Toml => Ok(GenericFormats::Toml),
            PayloadFormats::Csv => Ok(GenericFormats::Csv),
            PayloadFormats::Pickle => Ok(GenericFormats::Pickle),
            PayloadFormats::Postcard => Ok(GenericFormats::Postcard),
            PayloadFormats::Cbor => Ok(GenericFormats::Cbor),
        }
    }

    /// The generic counterpart of a front-matter format, if it has one.
    pub fn try_from_matter(value: &MatterFormats) -> (r: Result<GenericFormats, FormatError>)
        ensures
            r == match *value {
                MatterFormats::Refdef => Err::<GenericFormats, FormatError>(FormatError::NotGeneric),
                MatterFormats::Json => Ok(GenericFormats::Json),
                MatterFormats::Yaml => Ok(GenericFormats::Yaml),
                MatterFormats::Toml => Ok(GenericFormats::Toml),
            },
    {
        match value {
            MatterFormats::Refdef => Err(FormatError::NotGeneric),
            MatterFormats::Json => Ok(GenericFormats::Json),
            MatterFormats::Yaml => Ok(GenericFormats::Yaml),
            MatterFormats::Toml => Ok(GenericFormats::Toml),
        }
    }
}

impl ConfigFormats {
    /// The stable numeric code of each configuration format.
    pub fn code(&self) -> (c: u8)
        ensures
            c == match *self {
                ConfigFormats::Json => 3u8,
                ConfigFormats::Yaml => 4u8,
                ConfigFormats::Toml => 5u8,
            },
    {
        match self {
            ConfigFormats::Json => 3,
            ConfigFormats::Yaml => 4,
            ConfigFormats::Toml => 5,
        }
    }

    /// The configuration format a file extension names: exactly `json`,
    /// `toml` or `yaml`.
    pub fn try_from(value: &str) -> (r: Result<ConfigFormats, FormatError>)
        ensures
            value@ == "json"@ ==> r == Ok::<ConfigFormats, FormatError>(ConfigFormats::Json),
            value@ == "toml"@ ==> r == Ok::<ConfigFormats, FormatError>(ConfigFormats::Toml),
            value@ == "yaml"@ ==> r == Ok::<ConfigFormats, FormatError>(ConfigFormats::Yaml),
            !(value@ == "json"@ || value@ == "toml"@ || value@ == "yaml"@) ==> (r matches Err(
                FormatError::UnsupportedExtension(x),
            ) && x@ == value@),
    {
        proof {
            reveal_strlit("json");
            reveal_strlit("toml");
            reveal_strlit("yaml");
            assert("json"@[0] == 'j' && "toml"@[0] == 't' && "yaml"@[0] == 'y');
        }
        if str_eq(value, "json") {
            Ok(ConfigFormats::Json)
        } else if str_eq(value, "toml") {
            Ok(ConfigFormats::Toml)
        } else if str_eq(value, "yaml") {
            Ok(ConfigFormats::Yaml)
        } else {
            Err(FormatError::UnsupportedExtension(value.to_owned()))
        }
    }
}

impl MatterFormats {
    /// The stable numeric code of each front-matter format.
    pub fn code(&self) -> (c: u8)
        ensures
            c == match *self {
                MatterFormats::Refdef => 0u8,
                MatterFormats::Json => 3u8,
                MatterFormats::Yaml => 4u8,
                MatterFormats::Toml => 5u8,
            },
    {
        match self {
            MatterFormats::Refdef => 0,
            MatterFormats::Json => 3,
            MatterFormats::Yaml => 4,
            MatterFormats::Toml => 5,
        }
    }

    /// The written name of each front-matter format.
    pub open spec fn spec_name(self) -> Seq<char> {
        match self {
            MatterFormats::Refdef => "refdef"@,
            MatterFormats::Json => "json"@,
            MatterFormats::Yaml => "yaml"@,
            MatterFormats::Toml => "toml"@,
        }
    }

    /// The written name of each front-matter format.
    pub fn as_str(&self) -> (r: &'static str)
        ensures
            r@ == self.spec_name(),
    {
        let r: &'static str = match self {
            MatterFormats::Refdef => "refdef",
            MatterFormats::Json => "json",
            MatterFormats::Yaml => "yaml",
            MatterFormats::Toml => "toml",
        };
        r
    }
}

impl PayloadFormats {
    /// The stable numeric code of each payload format.
    pub fn code(&self) -> (c: u8)
        ensures
            c == match *self {
                PayloadFormats::Html => 1u8,
                PayloadFormats::Markdown => 2u8,
                PayloadFormats::Json => 3u8,
                PayloadFormats::Yaml => 4u8,
                PayloadFormats::Toml => 5u8,
                PayloadFormats::Csv => 6u8,
                PayloadFormats::Pickle => 7u8,
                PayloadFormats::Postcard => 8u8,
                PayloadFormats::Cbor => 9u8,
            },
    {
        match self {
            PayloadFormats::Html => 1,
            PayloadFormats::Markdown => 2,
            PayloadFormats::Json => 3,
            PayloadFormats::Yaml => 4,
            PayloadFormats::Toml => 5,
            PayloadFormats::Csv => 6,
            PayloadFormats::Pickle => 7,
            PayloadFormats::Postcard => 8,
            PayloadFormats::Cbor => 9,
        }
    }

    /// The file extension each payload format is requested by.
    pub open spec fn spec_name(self) -> Seq<char> {
        match self {
            PayloadFormats::Html => "html"@,
            PayloadFormats::Markdown => "md"@,
            PayloadFormats::Json => "json"@,
            PayloadFormats::Yaml => "yaml"@,
            PayloadFormats::Toml => "toml"@,
            PayloadFormats::Csv => "csv"@,
            PayloadFormats::Pickle => "pickle"@,
            PayloadFormats::Postcard => "postcard"@,
            PayloadFormats::Cbor => "cbor"@,
        }
    }

    /// The file extension each payload format is requested by.
    pub fn as_str(&self) -> (r: &'static str)
        ensures
            r@ == self.spec_name(),
    {
        let r: &'static str = match self {
            PayloadFormats::Html => "html",
            PayloadFormats::Markdown => "md",
            PayloadFormats::Json => "json",
            PayloadFormats::Yaml => "yaml",
            PayloadFormats::Toml => "toml",
            PayloadFormats::Csv => "csv",
            PayloadFormats::Pickle => "pickle",
            PayloadFormats::Postcard => "postcard",
            PayloadFormats::Cbor => "cbor",
        };
        r
    }

    /// The payload format a file extension names, if any.
    pub fn try_from(value: &str) -> (r: Result<PayloadFormats, FormatError>)
        ensures
            value@ == "json"@ ==> r == Ok::<PayloadFormats, FormatError>(PayloadFormats::Json),
            value@ == "toml"@ ==> r == Ok::<PayloadFormats, FormatError>(PayloadFormats::Toml),
            value@ == "yaml"@ ==> r == Ok::<PayloadFormats, FormatError>(PayloadFormats::Yaml),
            value@ == "html"@ ==> r == Ok::<PayloadFormats, FormatError>(PayloadFormats::Html),
            value@ == "md"@ ==> r == Ok::<PayloadFormats, FormatError>(PayloadFormats::Markdown),
            value@ == "pickle"@ ==> r == Ok::<PayloadFormats, FormatError>(PayloadFormats::Pickle),
            value@ == "cbor"@ ==> r == Ok::<PayloadFormats, FormatError>(PayloadFormats::Cbor),
            value@ == "csv"@ ==> r == Ok::<PayloadFormats, FormatError>(PayloadFormats::Csv),
            value@ == "postcard"@ ==> r == Ok::<PayloadFormats, FormatError>(
                PayloadFormats::Postcard,
            ),
            r matches Err(e) ==> (e matches FormatError::UnsupportedExtension(x) && x@ == value@),
            r is Err <==> !(value@ == "json"@ || value@ == "toml"@ || value@ == "yaml"@ || value@
                == "html"@ || value@ == "md"@ || value@ == "pickle"@ || value@ == "cbor"@ || value@
                == "csv"@ || value@ == "postcard"@),
    {
        proof {
            reveal_strlit("json");
            reveal_strlit("toml");
            reveal_strlit("yaml");
            reveal_strlit("html");
            reveal_strlit("md");
            reveal_strlit("pickle");
            reveal_strlit("cbor");
            reveal_strlit("csv");
            reveal_strlit("postcard");
            assert("json"@.len() == 4 && "toml"@.len() == 4 && "yaml"@.len() == 4 && "html"@.len()
                == 4 && "md"@.len() == 2 && "pickle"@.len() == 6 && "cbor"@.len() == 4
                && "csv"@.len() == 3 && "postcard"@.len() == 8);
            assert("json"@[0] == 'j' && "toml"@[0] == 't' && "yaml"@[0] == 'y' && "html"@[0] == 'h'
                && "cbor"@[0] == 'c');
        }
        if str_eq(value, "json") {
            Ok(PayloadFormats::Json)
        } else if str_eq(value, "toml") {
            Ok(PayloadFormats::Toml)
        } else if str_eq(value, "yaml") {
            Ok(PayloadFormats::Yaml)
        } else if str_eq(value, "html") {
            Ok(PayloadFormats::Html)
        } else if str_eq(value, "md") {
            Ok(PayloadFormats::Markdown)
        } else if str_eq(value, "pickle") {
            Ok(PayloadFormats::Pickle)
        } else if str_eq(value, "cbor") {
            Ok(PayloadFormats::Cbor)
        } else if str_eq(value, "csv") {
            Ok(PayloadFormats::Csv)
        } else if str_eq(value, "postcard") {
            Ok(PayloadFormats::Postcard)
        } else {
            Err(FormatError::UnsupportedExtension(value.to_owned()))
        }
    }
}

/// The path of the Markdown source behind a requested path: every
/// occurrence of a dot followed by the requested format's extension is
/// replaced by `.md`.
pub fn md_path_for(path: &str, extension: &PayloadFormats) -> (r: String)
    ensures
        r@ == replace_all_spec(path@, seq!['.'] + extension.spec_name(), ".md"@),
{
    let mut needle = String::from_str(".");
    needle.append(extension.as_str());
    proof {
        reveal_strlit(".");
        assert(needle@ =~= seq!['.'] + extension.spec_name());
    }
    replace_all(path, needle.as_str(), ".md")
}

} // verus!
