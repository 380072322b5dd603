//! The commands a user can give, with their arguments as plain values.
use vstd::prelude::*;

verus! {

/// A command line: one command and its arguments.
#[derive(Debug)]
pub struct Cli {
    pub png_args: PngArgs,
}

/// The four commands.
#[derive(Debug)]
pub enum PngArgs {
    Encode(EncodeArgs),
    Decode(DecodeArgs),
    Remove(RemoveArgs),
    Print(PrintArgs),
}

/// Hide `msg` in a chunk of type `chunk_type` added to the file at `file_path`.
#[derive(Debug)]
pub struct EncodeArgs {
    pub file_path: String,
    pub chunk_type: String,
    pub msg: String,
    pub outfile_path: Option<String>,
}

/// Show the text of the first chunk of type `chunk_type` in the file at `file_path`.
#[derive(Debug)]
pub struct DecodeArgs {
    pub file_path: String,
    pub chunk_type: String,
}

/// Remove the first chunk of type `chunk_type` from the file at `file_path`.
#[derive(Debug)]
pub struct RemoveArgs {
    pub file_path: String,
    pub chunk_type: String,
}

/// List the chunks of the file at `file_path`.
#[derive(Debug)]
pub struct PrintArgs {
    pub file_path: String,
}

/// Where an encoded file goes when no output path is given.
pub open spec fn default_output_path() -> Seq<char> {
    "encoded.png"@
}

impl EncodeArgs {
    /// The path the encoded file is written to: the one given, or `encoded.png`.
    pub fn output_path(&self) -> (r: String)
        ensures
            r@ == match self.outfile_path {
                Some(p) => p@,
                None => default_output_path(),
            },
    {
        match &self.outfile_path {
            Some(p) => p.clone(),
            None => "encoded.png".to_owned(),
        }
    }
}

} // verus!
