use vstd::prelude::*;

verus! {

/// The structured-text notation that script documents are written in.
#[derive(Clone, Copy, Debug, PartialEq, Eq, Structural)]
pub enum FileFormat {
    Json,
    Yaml,
}

impl FileFormat {
    pub open spec fn spec_name(&self) -> Seq<char> {
        match self {
            FileFormat::Json => "json"@,
            FileFormat::Yaml => "yaml"@,
        }
    }

    /// The notation's file extension.
    pub fn name(&self) -> (r: &'static str)
        ensures
            r@ == self.spec_name(),
    {
        match self {
            FileFormat::Json => "json",
            FileFormat::Yaml => "yaml",
        }
    }

    /// YAML, the notation used unless another is chosen.
    pub fn default() -> (r: FileFormat)
        ensures
            r == FileFormat::Yaml,
    {
        FileFormat::Yaml
    }
}

/// A document that could not be read in its notation, with the reader's message.
pub enum FormatError {
    YAML(String),
    JSON(String),
}

impl FormatError {
    /// The notation's name.
    pub fn name(&self) -> (r: String)
        ensures
            r@ == match self {
                FormatError::JSON(_) => "json"@,
                FormatError::YAML(_) => "YAML"@,
            },
    {
        match self {
            FormatError::JSON(_) => String::from_str("json"),
            FormatError::YAML(_) => String::from_str("YAML"),
        }
    }

    /// The reader's message.
    pub fn message(&self) -> (r: String)
        ensures
            r@ == match self {
                FormatError::JSON(m) => m@,
                FormatError::YAML(m) => m@,
            },
    {
        match self {
            FormatError::JSON(m) => m.clone(),
            FormatError::YAML(m) => m.clone(),
        }
    }
}

} // verus!
