//! The failures that loading a database or a theme, or resolving a style, can
//! end in.

use vstd::prelude::*;
use std::error::Error;
use yaml_rust::ScanError;

verus! {

/// `std::io::Error`, carried through unread.
#[verifier::external_type_specification]
#[verifier::external_body]
pub struct ExIoError(std::io::Error);

/// `yaml_rust::ScanError`, carried through unread.
#[verifier::external_type_specification]
#[verifier::external_body]
pub struct ExScanError(ScanError);

/// A failure of loading a database or a theme, or of resolving a style.
#[derive(Debug)]
pub enum VividError {
    /// A file could not be read.
    IoError(std::io::Error),
    /// A text is no YAML: the scanner's error.
    YamlParsingError(ScanError),
    /// A node of a document is not of the type that its place asks for.
    UnexpectedYamlType,
    /// The string spells no color.
    ColorParseError(String),
    /// The file type stands for a pattern that the database holds already.
    DuplicateFileType(String),
    CouldNotFindDatabase,
    /// The database at this path could not be loaded.
    CouldNotLoadDatabaseFrom(String),
    /// No theme of this name was found.
    CouldNotFindTheme(String),
    /// The theme at this path could not be loaded.
    CouldNotLoadTheme(String),
    /// The theme file holds no document.
    EmptyThemeFile,
    /// The theme has no style for the category, given with dots between its
    /// segments.
    CouldNotFindStyleFor(String),
    /// The reference names no color of the palette and spells none.
    UnknownColor(String),
    /// The name is that of no font style.
    UnknownFontStyle(String),
}

/// What a [`VividError`] says, with each text as a sequence of characters.
pub ghost enum Failure {
    Io(std::io::Error),
    YamlParsing(ScanError),
    UnexpectedYamlType,
    ColorParse(Seq<char>),
    DuplicateFileType(Seq<char>),
    CouldNotFindDatabase,
    CouldNotLoadDatabaseFrom(Seq<char>),
    CouldNotFindTheme(Seq<char>),
    CouldNotLoadTheme(Seq<char>),
    EmptyThemeFile,
    CouldNotFindStyleFor(Seq<char>),
    UnknownColor(Seq<char>),
    UnknownFontStyle(Seq<char>),
}

impl View for VividError {
    type V = Failure;

    open spec fn view(&self) -> Failure {
        match self {
            VividError::IoError(e) => Failure::Io(*e),
            VividError::YamlParsingError(e) => Failure::YamlParsing(*e),
            VividError::UnexpectedYamlType => Failure::UnexpectedYamlType,
            VividError::ColorParseError(s) => Failure::ColorParse(s@),
            VividError::DuplicateFileType(s) => Failure::DuplicateFileType(s@),
            VividError::CouldNotFindDatabase => Failure::CouldNotFindDatabase,
            VividError::CouldNotLoadDatabaseFrom(s) => Failure::CouldNotLoadDatabaseFrom(s@),
            VividError::CouldNotFindTheme(s) => Failure::CouldNotFindTheme(s@),
            VividError::CouldNotLoadTheme(s) => Failure::CouldNotLoadTheme(s@),
            VividError::EmptyThemeFile => Failure::EmptyThemeFile,
            VividError::CouldNotFindStyleFor(s) => Failure::CouldNotFindStyleFor(s@),
            VividError::UnknownColor(s) => Failure::UnknownColor(s@),
            VividError::UnknownFontStyle(s) => Failure::UnknownFontStyle(s@),
        }
    }
}

/// What is said of a failure, but for the two kinds whose text comes from
/// where the failure arose.
pub open spec fn message_of(failure: Failure) -> Option<Seq<char>> {
    match failure {
        Failure::Io(_) => None,
        Failure::YamlParsing(_) => None,
        Failure::UnexpectedYamlType => Some("Unexpected type in YAML file."@),
        Failure::ColorParse(color) => Some("Could not parse color string '"@ + color + "'."@),
        Failure::DuplicateFileType(filetype) => Some(
            "Duplicate file type '"@ + filetype + "'."@,
        ),
        Failure::CouldNotFindDatabase => Some(
            "Could not find filetypes database. Make sure that it is located in a standard location. Alternatively, specify the path via the command-line or the VIVID_DATABASE environment variable."@,
        ),
        Failure::CouldNotLoadDatabaseFrom(path) => Some(
            "Could not load filetypes database from '"@ + path + "'."@,
        ),
        Failure::CouldNotFindTheme(name) => Some("Could not find theme '"@ + name + "'."@),
        Failure::CouldNotLoadTheme(path) => Some("Could not load theme '"@ + path + "'."@),
        Failure::EmptyThemeFile => Some("Theme file is empty"@),
        Failure::CouldNotFindStyleFor(category) => Some(
            "Could not find style for category '"@ + category + "'"@,
        ),
        Failure::UnknownColor(color) => Some("Unknown color '"@ + color + "'"@),
        Failure::UnknownFontStyle(name) => Some("Unknown font style '"@ + name + "'"@),
    }
}

/// `std::error::Error::description` of a `std::io::Error`, as a string of
/// its own. Nothing is claimed of the text.
#[verifier::external_body]
#[allow(deprecated)]
fn io_error_description(e: &std::io::Error) -> String {
    e.description().to_string()
}

/// `std::error::Error::description` of a `yaml_rust::ScanError`, as a string
/// of its own. Nothing is claimed of the text.
#[verifier::external_body]
#[allow(deprecated)]
fn scan_error_description(e: &ScanError) -> String {
    e.description().to_string()
}

fn quoted(before: &str, text: &str, after: &str) -> (s: String)
    ensures
        s@ == before@ + text@ + after@,
{
    let mut s = String::from_str(before);
    s.append(text);
    s.append(after);
    s
}

impl VividError {
    /// What to tell the user of this failure.
    pub fn message(&self) -> (text: String)
        ensures
            message_of(self@) matches Some(expected) ==> text@ == expected,
    {
        match self {
            VividError::IoError(e) => io_error_description(e),
            VividError::YamlParsingError(e) => scan_error_description(e),
            VividError::UnexpectedYamlType => String::from_str("Unexpected type in YAML file."),
            VividError::ColorParseError(color) => quoted(
                "Could not parse color string '",
                color.as_str(),
                "'.",
            ),
            VividError::DuplicateFileType(filetype) => quoted(
                "Duplicate file type '",
                filetype.as_str(),
                "'.",
            ),
            VividError::CouldNotFindDatabase => String::from_str(
                "Could not find filetypes database. Make sure that it is located in a standard location. Alternatively, specify the path via the command-line or the VIVID_DATABASE environment variable.",
            ),
            VividError::CouldNotLoadDatabaseFrom(path) => quoted(
                "Could not load filetypes database from '",
                path.as_str(),
                "'.",
            ),
            VividError::CouldNotFindTheme(name) => quoted(
                "Could not find theme '",
                name.as_str(),
                "'.",
            ),
            VividError::CouldNotLoadTheme(path) => quoted(
                "Could not load theme '",
                path.as_str(),
                "'.",
            ),
            VividError::EmptyThemeFile => String::from_str("Theme file is empty"),
            VividError::CouldNotFindStyleFor(category) => quoted(
                "Could not find style for category '",
                category.as_str(),
                "'",
            ),
            VividError::UnknownColor(color) => quoted("Unknown color '", color.as_str(), "'"),
            VividError::UnknownFontStyle(name) => quoted(
                "Unknown font style '",
                name.as_str(),
                "'",
            ),
        }
    }
}

/// A result with its error seen as a [`Failure`].
pub open spec fn outcome<T>(r: Result<T, VividError>) -> Result<T, Failure> {
    match r {
        Ok(t) => Ok(t),
        Err(e) => Err(e@),
    }
}

/// A result with its value seen through its view and its error as a
/// [`Failure`].
pub open spec fn viewed<T: View>(r: Result<T, VividError>) -> Result<T::V, Failure> {
    match r {
        Ok(t) => Ok(t@),
        Err(e) => Err(e@),
    }
}

} // verus!
