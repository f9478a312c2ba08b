//! The private key of a session.
use russh::keys::PrivateKey;
use vstd::prelude::*;

use crate::paths::{join_path, joined_path};
use crate::text::{
    a_prefix_comes_off, after_prefix, chars_of, same_text, strip_prefix_chars, text_of,
};

verus! {

/// A private key of the `russh` crate.
#[verifier::external_type_specification]
#[verifier::external_body]
pub struct ExPrivateKey(PrivateKey);

/// An optional text as its characters.
pub open spec fn optional_text(text: Option<&str>) -> Option<Seq<char>> {
    match text {
        Some(t) => Some(t@),
        None => None,
    }
}

/// The name of what `decode_secret_key` makes of a text under a passphrase: the
/// private key that it holds, or the words for why it holds none.
pub uninterp spec fn decoded_key(
    text: Seq<char>,
    passphrase: Option<Seq<char>>,
) -> Result<PrivateKey, Seq<char>>;

/// `decode_secret_key` of the `russh` crate reads a private key out of a text,
/// with the passphrase where the key is encrypted, or says why it cannot. Which
/// key that is, or in which words it is refused, depends on the two alone.
#[verifier::external_body]
fn decode_key(text: &str, passphrase: Option<&str>) -> (r: Result<PrivateKey, String>)
    ensures
        match r {
            Ok(key) => decoded_key(text@, optional_text(passphrase)) == Ok::<PrivateKey, Seq<char>>(
                key,
            ),
            Err(words) => decoded_key(text@, optional_text(passphrase)) == Err::<
                PrivateKey,
                Seq<char>,
            >(words@),
        },
{
    russh::keys::decode_secret_key(text, passphrase).map_err(|error| error.to_string())
}

/// How far the session's private key is.
pub enum KeyStage {
    /// The key is there.
    Loaded(PrivateKey),
    /// It has to be read from this file; the text of the session was none, for
    /// the reason given.
    ReadFile { path: String, inline_error: Option<String> },
    /// There is none, for this reason.
    Failed(String),
}

/// What is said of a text that is no private key.
pub open spec fn inline_failure(error: Seq<char>) -> Seq<char> {
    "decode private key content: "@ + error
}

/// Whether the stage is the one for a session with the given key text and key
/// file: the text counts first, then the file.
pub open spec fn key_stage(
    stage: KeyStage,
    inline_key: Seq<char>,
    key_path: Option<String>,
    passphrase: Option<Seq<char>>,
) -> bool {
    let decoded = decoded_key(inline_key, passphrase);
    if inline_key.len() > 0 && decoded is Ok {
        stage matches KeyStage::Loaded(key) && key == decoded->Ok_0
    } else if key_path is Some {
        match stage {
            KeyStage::ReadFile { path, inline_error } => {
                &&& path == key_path.unwrap()
                &&& match inline_error {
                    Some(words) => inline_key.len() > 0 && words@ == inline_failure(
                        decoded->Err_0,
                    ),
                    None => inline_key.len() == 0,
                }
            },
            _ => false,
        }
    } else {
        match stage {
            KeyStage::Failed(words) => words@ == (if inline_key.len() > 0 {
                inline_failure(decoded->Err_0)
            } else {
                "private key content or path is required"@
            }),
            _ => false,
        }
    }
}

/// Loads the private key of a session, as far as that needs no file. The key
/// text may be empty.
pub fn load_session_private_key(
    inline_key: &str,
    key_path: Option<String>,
    passphrase: Option<&str>,
) -> (r: KeyStage)
    ensures
        key_stage(r, inline_key@, key_path, optional_text(passphrase)),
{
    let mut inline_error: Option<String> = None;
    if !inline_key.is_empty() {
        match decode_key(inline_key, passphrase) {
            Ok(key) => {
                return KeyStage::Loaded(key);
            },
            Err(words) => {
                let mut text = "decode private key content: ".to_owned();
                text.append(words.as_str());
                inline_error = Some(text);
            },
        }
    }
    match key_path {
        Some(path) => KeyStage::ReadFile { path, inline_error },
        None => match inline_error {
            Some(words) => KeyStage::Failed(words),
            None => KeyStage::Failed("private key content or path is required".to_owned()),
        },
    }
}

/// What is said where the key file holds no key either.
pub open spec fn file_failure(
    path: Seq<char>,
    error: Seq<char>,
    inline_error: Option<String>,
) -> Seq<char> {
    let file = "load key "@ + path + ": "@ + error;
    match inline_error {
        Some(words) => words@ + "; "@ + file,
        None => file,
    }
}

fn key_file_failure(path: &str, error: &str, inline_error: &Option<String>) -> (r: String)
    ensures
        r@ == file_failure(path@, error@, *inline_error),
{
    let mut file = "load key ".to_owned();
    file.append(path);
    file.append(": ");
    file.append(error);
    match inline_error {
        Some(words) => {
            let mut r = words.clone();
            r.append("; ");
            r.append(file.as_str());
            r
        },
        None => file,
    }
}

/// What a key file gives: the key in its text, or why there is none. The file
/// that could not be read tells why.
pub open spec fn file_key(
    content: Result<String, String>,
    passphrase: Option<Seq<char>>,
) -> Result<PrivateKey, Seq<char>> {
    match content {
        Ok(text) => decoded_key(text@, passphrase),
        Err(error) => Err(error@),
    }
}

/// The private key in the file at the path, whose text or whose failure to be
/// read is given. `inline_error` says why the text of the session held no key.
pub fn load_key_file(
    path: &str,
    content: Result<String, String>,
    passphrase: Option<&str>,
    inline_error: &Option<String>,
) -> (r: Result<PrivateKey, String>)
    ensures
        match (r, file_key(content, optional_text(passphrase))) {
            (Ok(key), Ok(held)) => key == held,
            (Err(words), Err(error)) => words@ == file_failure(path@, error, *inline_error),
            _ => false,
        },
{
    match content {
        Ok(text) => match decode_key(text.as_str(), passphrase) {
            Ok(key) => Ok(key),
            Err(error) => Err(key_file_failure(path, error.as_str(), inline_error)),
        },
        Err(error) => Err(key_file_failure(path, error.as_str(), inline_error)),
    }
}

/// The key of a session: the one in its text, or else the one in its file, or what
/// is said of both where there is none. `content` is what the file gives when it is
/// read.
pub open spec fn session_key(
    inline_key: Seq<char>,
    key_path: Option<String>,
    passphrase: Option<Seq<char>>,
    content: Result<String, String>,
) -> Result<PrivateKey, Seq<char>> {
    let held = decoded_key(inline_key, passphrase);
    if inline_key.len() > 0 && held is Ok {
        held
    } else {
        match key_path {
            Some(path) => match file_key(content, passphrase) {
                Ok(key) => Ok(key),
                Err(error) => if inline_key.len() > 0 {
                    Err(
                        inline_failure(held->Err_0) + "; "@ + ("load key "@ + path@ + ": "@
                            + error),
                    )
                } else {
                    Err("load key "@ + path@ + ": "@ + error)
                },
            },
            None => if inline_key.len() > 0 {
                Err(inline_failure(held->Err_0))
            } else {
                Err("private key content or path is required"@)
            },
        }
    }
}

/// The stage at which a session's key is, and what its file then gives, make up
/// the key of the session: the text counts first, a file is read only where the
/// text holds no key, and where both fail both reasons are told.
pub proof fn the_stages_give_the_key_of_the_session(
    stage: KeyStage,
    inline_key: Seq<char>,
    key_path: Option<String>,
    passphrase: Option<Seq<char>>,
    content: Result<String, String>,
)
    requires
        key_stage(stage, inline_key, key_path, passphrase),
    ensures
        session_key(inline_key, key_path, passphrase, content) == (match stage {
            KeyStage::Loaded(key) => Ok::<PrivateKey, Seq<char>>(key),
            KeyStage::ReadFile { path, inline_error } => match file_key(content, passphrase) {
                Ok(key) => Ok(key),
                Err(error) => Err(file_failure(path@, error, inline_error)),
            },
            KeyStage::Failed(words) => Err(words@),
        }),
{
}

/// The path of a key file: a leading tilde stands for the user's home directory.
/// No path, and a tilde where the home directory is not known, give none.
pub open spec fn expanded_path(
    value: Seq<char>,
    home: Option<Seq<char>>,
    windows: bool,
) -> Option<Seq<char>> {
    if value.len() == 0 {
        None
    } else if value == "~"@ {
        home
    } else {
        match after_prefix(value, "~/"@) {
            Some(rest) => match home {
                Some(directory) => Some(joined_path(directory, rest, windows)),
                None => None,
            },
            None => Some(value),
        }
    }
}

pub fn expand_key_path(value: &str, home: Option<&str>, windows: bool) -> (r: Option<String>)
    ensures
        match r {
            Some(path) => expanded_path(value@, optional_text(home), windows) == Some(path@),
            None => expanded_path(value@, optional_text(home), windows) is None,
        },
{
    if value.is_empty() {
        return None;
    }
    if same_text(value, "~") {
        return match home {
            Some(directory) => Some(directory.to_owned()),
            None => None,
        };
    }
    let cs = chars_of(value);
    match strip_prefix_chars(cs.as_slice(), "~/") {
        Some(rest) => match home {
            Some(directory) => {
                let rest_text = text_of(rest);
                Some(join_path(directory, rest_text.as_str(), windows))
            },
            None => None,
        },
        None => Some(value.to_owned()),
    }
}

/// A path to a key is taken as it is, but that a tilde at its start stands for the home
/// directory. Without a home directory such a path leads nowhere, and so does an empty
/// one.
pub proof fn a_tilde_stands_for_the_home_directory(
    path: Seq<char>,
    home: Seq<char>,
    windows: bool,
)
    ensures
        path.len() > 0 && path[0] != '~' ==> expanded_path(path, Some(home), windows) == Some(path)
            && expanded_path(path, None, windows) == Some(path),
        expanded_path("~"@, Some(home), windows) == Some(home),
        expanded_path("~/"@ + path, Some(home), windows) == Some(joined_path(home, path, windows)),
        expanded_path("~"@, None, windows) is None,
        expanded_path("~/"@ + path, None, windows) is None,
        expanded_path(Seq::empty(), Some(home), windows) is None,
{
    reveal_strlit("~");
    reveal_strlit("~/");
    let own = "~/"@ + path;
    assert(own.len() >= 2);
    assert("~"@.len() == 1);
    a_prefix_comes_off("~/"@, path, own);
    if path.len() > 0 && path[0] != '~' {
        assert("~"@[0] == '~');
        if after_prefix(path, "~/"@) is Some {
            assert(path.subrange(0, 2)[0] == path[0]);
        }
    }
}

/// A key given in full is used before one in a file, which is read only where the first
/// cannot be; where there is neither, that is told.
pub proof fn a_key_given_in_full_comes_first(
    stage: KeyStage,
    inline_key: Seq<char>,
    key_path: Option<String>,
    passphrase: Option<Seq<char>>,
)
    requires
        key_stage(stage, inline_key, key_path, passphrase),
    ensures
        stage is Loaded <==> inline_key.len() > 0 && decoded_key(inline_key, passphrase) is Ok,
        stage is ReadFile <==> !(stage is Loaded) && key_path is Some,
        stage is Failed <==> !(stage is Loaded) && key_path is None,
        stage matches KeyStage::Loaded(key) ==> Ok::<PrivateKey, Seq<char>>(key) == decoded_key(
            inline_key,
            passphrase,
        ),
        stage matches KeyStage::ReadFile { path, inline_error } ==> Some(path) == key_path && (
        inline_error is Some <==> inline_key.len() > 0),
{
}

/// What kept a key from being loaded is told with its path, behind what was wrong with
/// the key that was given in full.
pub proof fn a_key_that_fails_is_told_with_its_path(
    path: Seq<char>,
    error: Seq<char>,
    words: String,
    content: Result<String, String>,
    passphrase: Option<Seq<char>>,
)
    ensures
        file_failure(path, error, None) == "load key "@ + path + ": "@ + error,
        file_failure(path, error, Some(words)) == words@ + "; "@ + ("load key "@ + path + ": "@
            + error),
        content matches Err(reason) ==> (file_key(content, passphrase) matches Err(told) && told
            == reason@),
        content matches Ok(text) ==> file_key(content, passphrase) == decoded_key(
            text@,
            passphrase,
        ),
{
}

} // verus!
