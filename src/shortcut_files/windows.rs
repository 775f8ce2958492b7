//! The decision logic of the shell-link codec: which values it hands to the
//! native shell-link object, and when it refuses them.
use crate::shortcut_files::{opt_text, texts, ShortcutFile, ShortcutModel};
use crate::text::{first_at, first_index, join, join_into};
use vstd::prelude::*;
use vstd::string::*;
use vstd::utf8::encode_utf8;

verus! {

/// A failure of the shell-link codec.
#[derive(Debug)]
pub enum WindowsShortcutError {
    /// A path could not be converted to text; holds it, lossily converted.
    PathToStringError(String),
    /// A string held a NUL character; holds its byte offset in UTF-8.
    StringToCStringError(usize),
    /// The native subsystem failed; holds its status code.
    WindowsError(i32),
    /// The operation is not supported by this codec.
    UnsupportedOperation,
}

/// How the shell link shows the target's window.
#[derive(Debug, Clone, Copy, PartialEq, Eq)]
pub enum ShowCommand {
    Show,
    Hide,
}

/// The values handed to the native shell-link object, in the narrow
/// encoding (NUL-free text) and, for the destination, in the wide encoding.
pub struct ShellLinkPlan {
    pub path: String,
    pub arguments: String,
    pub show_command: ShowCommand,
    pub description: Option<String>,
    pub working_directory: Option<String>,
    pub icon: Option<String>,
    pub destination: Vec<u16>,
}

/// The UTF-16 code units of one character.
pub open spec fn utf16_of_char(c: char) -> Seq<u16> {
    let n = c as u32;
    if n < 0x10000 {
        seq![n as u16]
    } else {
        let m = (n - 0x10000) as u32;
        seq![(0xd800 + m / 0x400) as u16, (0xdc00 + m % 0x400) as u16]
    }
}

/// The UTF-16 code units of a text.
pub open spec fn utf16_of(s: Seq<char>) -> Seq<u16>
    decreases s.len(),
{
    if s.len() == 0 {
        Seq::empty()
    } else {
        utf16_of(s.drop_last()) + utf16_of_char(s.last())
    }
}

/// Whether `s` holds no NUL character.
pub open spec fn nul_free(s: Seq<char>) -> bool {
    forall|i: int| 0 <= i < s.len() ==> s[i] != '\0'
}

/// The byte offset, in the UTF-8 encoding of `s`, of its first NUL.
pub open spec fn nul_offset(s: Seq<char>) -> int {
    encode_utf8(s.take(first_index(s, '\0'))).len() as int
}

/// Whether the UTF-8 encoding of `s` has a length that a `usize` holds, as
/// that of every string in memory does.
pub open spec fn fits(s: Seq<char>) -> bool {
    encode_utf8(s).len() <= usize::MAX
}

/// The UTF-8 encoding of a prefix is no longer than that of the whole.
pub proof fn lemma_prefix_bytes(s: Seq<char>, i: int)
    requires
        0 <= i <= s.len(),
    ensures
        encode_utf8(s.take(i)).len() <= encode_utf8(s).len(),
    decreases s.len(),
{
    if i > 0 {
        lemma_prefix_bytes(s.drop_first(), i - 1);
        assert(s.take(i).drop_first() =~= s.drop_first().take(i - 1));
        assert(s.take(i)[0] == s[0]);
    } else {
        assert(s.take(i) =~= Seq::<char>::empty());
    }
}

/// Gives `s` back where it holds no NUL, or the byte offset of its first NUL.
pub fn string_to_c_string(s: &str) -> (r: Result<String, WindowsShortcutError>)
    requires
        fits(s@),
    ensures
        nul_free(s@) ==> (r matches Ok(t) && t@ == s@),
        !nul_free(s@) ==> (r matches Err(WindowsShortcutError::StringToCStringError(k)) && k
            == nul_offset(s@)),
{
    let n = s.unicode_len();
    let mut i: usize = 0;
    while i < n
        invariant
            n == s@.len(),
            i <= n,
            forall|j: int| 0 <= j < i ==> s@[j] != '\0',
            fits(s@),
        decreases n - i,
    {
        if s.get_char(i) == '\0' {
            proof {
                assert(first_at(s@, '\0', i as int));
                let k = first_index(s@, '\0');
                assert(first_at(s@, '\0', k));
                if k < i {
                    assert(s@[k] != '\0');
                }
                if k > i {
                    assert(s@[i as int] == '\0');
                }
            }
            let before = s.substring_char(0, i);
            assert(before@ =~= s@.take(i as int));
            proof {
                lemma_prefix_bytes(s@, i as int);
                assert(first_index(s@, '\0') == i);
                assert(before.spec_bytes() == encode_utf8(s@.take(i as int)));
            }
            let offset = before.len();
            return Err(WindowsShortcutError::StringToCStringError(offset));
        }
        i = i + 1;
    }
    Ok(s.to_owned())
}

/// Joins the arguments with single spaces, where the result holds no NUL.
pub fn arguments_to_string(arguments: &Vec<String>) -> (r: Result<String, WindowsShortcutError>)
    requires
        fits(join(texts(arguments@), ' ')),
    ensures
        nul_free(join(texts(arguments@), ' ')) ==> (r matches Ok(t) && t@ == join(
            texts(arguments@),
            ' ',
        )),
        !nul_free(join(texts(arguments@), ' ')) ==> (r matches Err(
            WindowsShortcutError::StringToCStringError(k),
        ) && k == nul_offset(join(texts(arguments@), ' '))),
{
    let mut joined = String::new();
    proof {
        reveal_strlit(" ");
        assert(" "@ =~= seq![' ']);
    }
    join_into(&mut joined, arguments, " ", Ghost(' '));
    assert(joined@ =~= join(texts(arguments@), ' '));
    string_to_c_string(joined.as_str())
}

/// The wide encoding of a path, with a terminating zero.
pub fn path_to_utf16(path: &str) -> (r: Vec<u16>)
    ensures
        r@ == utf16_of(path@).push(0u16),
{
    let n = path.unicode_len();
    let mut out: Vec<u16> = Vec::new();
    let mut i: usize = 0;
    while i < n
        invariant
            n == path@.len(),
            i <= n,
            out@ == utf16_of(path@.take(i as int)),
        decreases n - i,
    {
        let c = path.get_char(i);
        assert(path@.take(i as int + 1).drop_last() =~= path@.take(i as int));
        let ghost prev = out@;
        let v = c as u32;
        if v < 0x10000 {
            out.push(v as u16);
            assert(out@ =~= prev + utf16_of_char(c));
        } else {
            let m = v - 0x10000;
            out.push((0xd800 + m / 0x400) as u16);
            out.push((0xdc00 + m % 0x400) as u16);
            assert(out@ =~= prev + utf16_of_char(c));
        }
        i = i + 1;
    }
    assert(path@.take(n as int) =~= path@);
    out.push(0);
    out
}

/// The byte offset of the first NUL in the first field, in the order path,
/// description, joined arguments, icon, working directory, that holds one.
pub open spec fn conversion_error(m: ShortcutModel) -> Option<int> {
    if !nul_free(m.path) {
        Some(nul_offset(m.path))
    } else if m.description is Some && !nul_free(m.description->Some_0) {
        Some(nul_offset(m.description->Some_0))
    } else if !nul_free(join(m.arguments, ' ')) {
        Some(nul_offset(join(m.arguments, ' ')))
    } else if m.icon is Some && !nul_free(m.icon->Some_0) {
        Some(nul_offset(m.icon->Some_0))
    } else if m.working_directory is Some && !nul_free(m.working_directory->Some_0) {
        Some(nul_offset(m.working_directory->Some_0))
    } else {
        None
    }
}

fn optional_c_string(o: &Option<String>) -> (r: Result<Option<String>, WindowsShortcutError>)
    requires
        o matches Some(s) ==> fits(s@),
    ensures
        match o {
            Some(s) => if nul_free(s@) {
                r matches Ok(Some(t)) && t@ == s@
            } else {
                r matches Err(WindowsShortcutError::StringToCStringError(k)) && k == nul_offset(s@)
            },
            None => r matches Ok(None),
        },
{
    match o {
        Some(s) => match string_to_c_string(s.as_str()) {
            Ok(t) => Ok(Some(t)),
            Err(e) => Err(e),
        },
        None => Ok(None),
    }
}

/// The values that saving `shortcut` as a shell link at `to` hands to the
/// native object: the text fields where none holds a NUL, the show command
/// from the terminal flag, and the wide destination path. The name and the
/// categories are not used.
pub fn shell_link_plan(shortcut: &ShortcutFile, to: &str) -> (r: Result<
    ShellLinkPlan,
    WindowsShortcutError,
>)
    requires
        fits(shortcut@.path),
        shortcut@.description matches Some(d) ==> fits(d),
        fits(join(shortcut@.arguments, ' ')),
        shortcut@.icon matches Some(i) ==> fits(i),
        shortcut@.working_directory matches Some(w) ==> fits(w),
    ensures
        match conversion_error(shortcut@) {
            Some(k) => r matches Err(WindowsShortcutError::StringToCStringError(j)) && j == k,
            None => r matches Ok(p) && p.path@ == shortcut@.path && p.arguments@ == join(
                shortcut@.arguments,
                ' ',
            ) && p.show_command == (if shortcut.show_terminal {
                ShowCommand::Show
            } else {
                ShowCommand::Hide
            }) && opt_text(p.description) == shortcut@.description && opt_text(
                p.working_directory,
            ) == shortcut@.working_directory && opt_text(p.icon) == shortcut@.icon
                && p.destination@ == utf16_of(to@).push(0u16),
        },
{
    let path = match string_to_c_string(shortcut.path.as_str()) {
        Ok(t) => t,
        Err(e) => return Err(e),
    };
    let description = match optional_c_string(&shortcut.description) {
        Ok(t) => t,
        Err(e) => return Err(e),
    };
    let arguments = match arguments_to_string(&shortcut.arguments) {
        Ok(t) => t,
        Err(e) => return Err(e),
    };
    let icon = match optional_c_string(&shortcut.icon) {
        Ok(t) => t,
        Err(e) => return Err(e),
    };
    let show_command = if shortcut.show_terminal {
        ShowCommand::Show
    } else {
        ShowCommand::Hide
    };
    let working_directory = match optional_c_string(&shortcut.working_directory) {
        Ok(t) => t,
        Err(e) => return Err(e),
    };
    let destination = path_to_utf16(to);
    Ok(
        ShellLinkPlan {
            path,
            arguments,
            show_command,
            description,
            working_directory,
            icon,
            destination,
        },
    )
}

/// Shell-link files cannot be read back: this always fails.
pub fn read_shortcut_file(_path: &str) -> (r: Result<ShortcutFile, WindowsShortcutError>)
    ensures
        r matches Err(WindowsShortcutError::UnsupportedOperation),
{
    Err(WindowsShortcutError::UnsupportedOperation)
}

} // verus!
