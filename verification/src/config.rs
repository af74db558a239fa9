//! What a node is told when it is started.

use crate::address::SocketAddr;
use crate::path::{
    extension_of, is_extension_of, is_plain_path, path_debug, path_extension, shown_as,
};
use vstd::prelude::*;

verus! {

/// The extension of manifest files.
pub const MANIFEST_FILE_EXT: &'static str = "manifest";

/// What a node is to do.
#[derive(Debug)]
pub struct Config {
    /// The address to listen on.
    pub node_address: SocketAddr,
    /// The files to share.
    pub upload_files: Option<Vec<String>>,
    /// The manifests of the files to download.
    pub manifest_files: Option<Vec<String>>,
}

/// What is said of a path where nothing is.
pub open spec fn missing_text(shown: Seq<char>) -> Seq<char> {
    shown + " file doesn't exists"@
}

/// What is said of a path where something other than a file is.
pub open spec fn not_a_file_text(shown: Seq<char>) -> Seq<char> {
    shown + " is not a file"@
}

/// What is said of a file that is no manifest by its name.
pub open spec fn wrong_extension_text(path: Seq<char>) -> Seq<char> {
    "`"@ + path + "` has incorrect file extension, expect: ."@ + MANIFEST_FILE_EXT@
}

/// Whether `text` says what is wrong with a path that is shown as `shown`.
pub open spec fn says_why(text: Seq<char>, shown: Seq<char>, exists_there: bool) -> bool {
    text == (if exists_there {
        not_a_file_text(shown)
    } else {
        missing_text(shown)
    })
}

/// Decides whether a file can be shared, by what was found at its path.
pub fn file_path_verdict(shown: &str, exists_there: bool, is_file: bool) -> (res: Result<
    (),
    String,
>)
    ensures
        match res {
            Ok(_) => exists_there && is_file,
            Err(text) => !(exists_there && is_file) && says_why(text@, shown@, exists_there),
        },
        match res {
            Ok(_) => true,
            Err(text) => if exists_there {
                text@ == shown@ + " is not a file"@
            } else {
                text@ == shown@ + " file doesn't exists"@
            },
        },
{
    let mut text = String::from_str(shown);
    if !exists_there {
        text.append(" file doesn't exists");
        Err(text)
    } else if !is_file {
        text.append(" is not a file");
        Err(text)
    } else {
        Ok(())
    }
}

/// Decides whether a file can be taken as a manifest, by what was found at its
/// path and by its extension.
pub fn manifest_path_verdict(
    path: &str,
    shown: &str,
    exists_there: bool,
    is_file: bool,
    extension: Option<&str>,
) -> (res: Result<(), String>)
    ensures
        match res {
            Ok(_) => {
                &&& exists_there && is_file
                &&& extension matches Some(found) && found@ == MANIFEST_FILE_EXT@
            },
            Err(text) => if exists_there && is_file {
                &&& !(extension matches Some(found) && found@ == MANIFEST_FILE_EXT@)
                &&& text@ == wrong_extension_text(path@)
            } else {
                says_why(text@, shown@, exists_there)
            },
        },
        match res {
            Ok(_) => extension matches Some(found) && found@ == "manifest"@,
            Err(text) => if !exists_there {
                text@ == shown@ + " file doesn't exists"@
            } else if !is_file {
                text@ == shown@ + " is not a file"@
            } else {
                &&& !(extension matches Some(found) && found@ == "manifest"@)
                &&& text@ == "`"@ + path@ + "` has incorrect file extension, expect: ."@
                    + "manifest"@
            },
        },
{
    match file_path_verdict(shown, exists_there, is_file) {
        Ok(_) => {},
        Err(text) => return Err(text),
    }
    let expected = String::from_str(MANIFEST_FILE_EXT);
    let fits = match extension {
        Some(found) => String::from_str(found) == expected,
        None => false,
    };
    if fits {
        Ok(())
    } else {
        let mut text = String::from_str("`");
        text.append(path);
        text.append("` has incorrect file extension, expect: .");
        text.append(MANIFEST_FILE_EXT);
        Err(text)
    }
}

/// Decides whether the file at `path` can be shared.
pub fn file_path_validation(path: &str, exists_there: bool, is_file: bool) -> (res: Result<
    (),
    String,
>)
    ensures
        match res {
            Ok(_) => exists_there && is_file,
            Err(text) => {
                &&& !(exists_there && is_file)
                &&& exists|shown: Seq<char>|
                    {
                        &&& #[trigger] shown_as(shown, path@)
                        &&& says_why(text@, shown, exists_there)
                        &&& text@ == shown + (if exists_there {
                            " is not a file"@
                        } else {
                            " file doesn't exists"@
                        })
                    }
            },
        },
{
    let shown = path_debug(path);
    file_path_verdict(shown.as_str(), exists_there, is_file)
}

/// Decides whether the file at `path` can be taken as a manifest.
pub fn manifest_path_validator(path: &str, exists_there: bool, is_file: bool) -> (res: Result<
    (),
    String,
>)
    ensures
        exists_there && is_file && is_plain_path(path@) ==> (res is Ok <==> extension_of(path@)
            == Some(MANIFEST_FILE_EXT@)),
        exists_there && is_file && is_plain_path(path@) ==> (res is Ok <==> extension_of(path@)
            == Some("manifest"@)),
        match res {
            Ok(_) => {
                &&& exists_there && is_file
                &&& is_extension_of(MANIFEST_FILE_EXT@, path@)
            },
            Err(text) => if exists_there && is_file {
                &&& text@ == wrong_extension_text(path@)
                &&& text@ == "`"@ + path@ + "` has incorrect file extension, expect: ."@
                    + "manifest"@
            } else {
                exists|shown: Seq<char>|
                    {
                        &&& #[trigger] shown_as(shown, path@)
                        &&& says_why(text@, shown, exists_there)
                        &&& text@ == shown + (if exists_there {
                            " is not a file"@
                        } else {
                            " file doesn't exists"@
                        })
                    }
            },
        },
{
    let shown = path_debug(path);
    let extension = path_extension(path);
    let found = match &extension {
        Some(found) => Some(found.as_str()),
        None => None,
    };
    manifest_path_verdict(path, shown.as_str(), exists_there, is_file, found)
}

} // verus!
