use vstd::prelude::*;

pub mod paths;
pub mod text;

use vstd::string::StringSliceAdditionalSpecFns;
use vstd::utf8::{decode_utf8, valid_utf8};

verus! {

/// A script's text together with the name and location it was loaded from.
#[derive(Debug)]
pub struct RhaiScript {
    /// The file's content
    pub content: String,
    /// The file's name
    pub file_name: String,
    /// The path inside your assets folder
    pub path_inside_assets_folder: String,
}

/// Why a script file could not be turned into a [`RhaiScript`].
#[derive(Debug, PartialEq, Eq, Structural)]
pub enum ScriptError {
    /// The file's bytes are not a well-formed UTF-8 encoding.
    InvalidUtf8,
}

/// Turns the raw bytes of a `.rhai` file into a [`RhaiScript`].
pub struct RhaiScriptLoader;

impl Default for RhaiScriptLoader {
    fn default() -> (r: Self)
        ensures
            r == RhaiScriptLoader,
    {
        RhaiScriptLoader
    }
}

impl RhaiScriptLoader {
    /// Builds a [`RhaiScript`] from a file's bytes and its path inside the
    /// assets folder: the content is the bytes decoded as UTF-8, the file
    /// name is the path's file stem, and the path is kept as given.
    pub fn load(&self, bytes: &[u8], path: &str) -> (r: Result<RhaiScript, ScriptError>)
        requires
            paths::has_file_stem(path.spec_bytes()),
        ensures
            r is Ok <==> valid_utf8(bytes@),
            r matches Ok(script) ==> {
                &&& script.content@ == decode_utf8(bytes@)
                &&& script.file_name@ == decode_utf8(paths::spec_file_stem(path.spec_bytes()))
                &&& script.path_inside_assets_folder@ == path@
            },
            r matches Err(e) ==> e == ScriptError::InvalidUtf8,
    {
        let content = match text::decode_text(bytes) {
            Some(c) => c,
            None => {
                return Err(ScriptError::InvalidUtf8);
            },
        };
        let stem = paths::file_stem(path);
        Ok(
            RhaiScript {
                content,
                file_name: stem.to_owned(),
                path_inside_assets_folder: path.to_owned(),
            },
        )
    }

    /// The file extensions this loader recognizes.
    pub fn extensions(&self) -> (r: Vec<&'static str>)
        ensures
            r@.len() == 1,
            r@[0]@ == "rhai"@,
    {
        let mut exts: Vec<&'static str> = Vec::new();
        exts.push("rhai");
        exts
    }
}

} // verus!
