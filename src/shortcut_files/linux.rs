//! The desktop-entry codec: a record as a line-oriented `Key=value` text.
use crate::shortcut_files::{opt_text, texts, ShortcutFile, ShortcutModel};
use crate::text::{
    ends_in_space, first_at, first_index, free_of, is_space, join, join_into, lemma_join_free,
    lemma_join_prepend, lemma_split_append, lemma_split_concat, lemma_split_join,
    lemma_split_nonempty, lemma_split_single, lemma_trim_id, same_text, split, split_range, trim,
    trim_bounds,
};
use vstd::prelude::*;
use vstd::string::*;

verus! {

/// Declares `std::io::Error`, which the codec's I/O failure carries as an
/// opaque value; nothing is assumed of it.
#[verifier::external_type_specification]
#[verifier::external_body]
pub struct ExIoError(std::io::Error);

/// A failure of the desktop-entry codec.
#[derive(Debug)]
pub enum LinuxShortcutError {
    /// Reading or writing the file failed.
    IOErr(std::io::Error),
    /// A path was not valid UTF-8.
    PathNotValidUTF8,
    /// A required key was absent; holds the field's name.
    MissingValue(&'static str),
}

/// What a scan of the lines has found so far.
pub struct Scan {
    pub name: Option<Seq<char>>,
    pub path: Option<Seq<char>>,
    pub icon: Option<Seq<char>>,
    pub description: Option<Seq<char>>,
    pub arguments: Option<Seq<Seq<char>>>,
    pub working_directory: Option<Seq<char>>,
    pub show_terminal: bool,
    pub categories: Option<Seq<Seq<char>>>,
}

/// A scan that has seen no line.
pub open spec fn empty_scan() -> Scan {
    Scan {
        name: None,
        path: None,
        icon: None,
        description: None,
        arguments: None,
        working_directory: None,
        show_terminal: false,
        categories: None,
    }
}

/// The key and value of a raw line, if it holds an entry. The line is
/// trimmed; a blank line, a comment or a line without `=` holds none;
/// otherwise the text before the first `=` is the key and the rest, unsplit,
/// is the value.
pub open spec fn line_entry(raw: Seq<char>) -> Option<(Seq<char>, Seq<char>)> {
    let line = trim(raw);
    if line.len() == 0 || line[0] == '#' || !(exists|k: int| first_at(line, '=', k)) {
        None
    } else {
        let k = first_index(line, '=');
        Some((line.take(k), line.skip(k + 1)))
    }
}

/// Whether the codec reads a key.
pub open spec fn known_key(key: Seq<char>) -> bool {
    key == "Name"@ || key == "Path"@ || key == "Icon"@ || key == "Comment"@ || key == "Exec"@
        || key == "Terminal"@ || key == "Categories"@
}

/// The categories of a `Categories` value: a final `;` ends the list, and
/// the rest is split on `;`, empty pieces kept.
pub open spec fn category_list(value: Seq<char>) -> Seq<Seq<char>> {
    if value.len() > 0 && value.last() == ';' {
        split(value.drop_last(), ';')
    } else {
        split(value, ';')
    }
}

/// The scan after one entry. A later entry for a key overrides an earlier
/// one, and unknown keys are ignored.
pub open spec fn apply_entry(st: Scan, key: Seq<char>, value: Seq<char>) -> Scan {
    if key == "Name"@ {
        Scan { name: Some(value), ..st }
    } else if key == "Path"@ {
        Scan { working_directory: Some(value), ..st }
    } else if key == "Icon"@ {
        Scan { icon: Some(value), ..st }
    } else if key == "Comment"@ {
        Scan { description: Some(value), ..st }
    } else if key == "Exec"@ {
        let parts = split(value, ' ');
        Scan { path: Some(parts[0]), arguments: Some(parts.drop_first()), ..st }
    } else if key == "Terminal"@ {
        Scan { show_terminal: value == "true"@, ..st }
    } else if key == "Categories"@ {
        Scan { categories: Some(category_list(value)), ..st }
    } else {
        st
    }
}

/// The scan after one more raw line.
pub open spec fn read_line(st: Scan, raw: Seq<char>) -> Scan {
    match line_entry(raw) {
        Some((key, value)) => apply_entry(st, key, value),
        None => st,
    }
}

/// The scan, from `st`, of a sequence of raw lines, in order.
pub open spec fn scan_from(st: Scan, lines: Seq<Seq<char>>) -> Scan
    decreases lines.len(),
{
    if lines.len() == 0 {
        st
    } else {
        read_line(scan_from(st, lines.drop_last()), lines.last())
    }
}

/// The scan of a sequence of raw lines, in order.
pub open spec fn scan_lines(lines: Seq<Seq<char>>) -> Scan {
    scan_from(empty_scan(), lines)
}

/// The record that a desktop-entry text describes, or the name of the
/// required field that it lacks (`Name` first, then `Path`, which comes
/// from the `Exec` key).
pub open spec fn parse(t: Seq<char>) -> Result<ShortcutModel, Seq<char>> {
    let st = scan_lines(split(t, '\n'));
    if st.name is None {
        Err("Name"@)
    } else if st.path is None {
        Err("Path"@)
    } else {
        Ok(
            ShortcutModel {
                name: st.name->Some_0,
                description: st.description,
                path: st.path->Some_0,
                arguments: match st.arguments {
                    Some(a) => a,
                    None => Seq::empty(),
                },
                icon: st.icon,
                working_directory: st.working_directory,
                show_terminal: st.show_terminal,
                categories: match st.categories {
                    Some(c) => c,
                    None => Seq::empty(),
                },
            },
        )
    }
}

/// What a scan has found, as values.
struct Scanned {
    name: Option<String>,
    path: Option<String>,
    icon: Option<String>,
    description: Option<String>,
    arguments: Option<Vec<String>>,
    working_directory: Option<String>,
    show_terminal: bool,
    categories: Option<Vec<String>>,
}

spec fn opt_texts(o: Option<Vec<String>>) -> Option<Seq<Seq<char>>> {
    match o {
        Some(v) => Some(texts(v@)),
        None => None,
    }
}

impl View for Scanned {
    type V = Scan;

    closed spec fn view(&self) -> Scan {
        Scan {
            name: opt_text(self.name),
            path: opt_text(self.path),
            icon: opt_text(self.icon),
            description: opt_text(self.description),
            arguments: opt_texts(self.arguments),
            working_directory: opt_text(self.working_directory),
            show_terminal: self.show_terminal,
            categories: opt_texts(self.categories),
        }
    }
}

/// Applies the line of `t` in `lo..hi` to the scan.
fn scan_line(st: &mut Scanned, t: &str, lo: usize, hi: usize)
    requires
        lo <= hi <= t@.len(),
    ensures
        final(st)@ == read_line(old(st)@, t@.subrange(lo as int, hi as int)),
{
    let ghost raw = t@.subrange(lo as int, hi as int);
    let (a, b) = trim_bounds(t, lo, hi);
    let ghost line = t@.subrange(a as int, b as int);
    if a == b || t.get_char(a) == '#' {
        return;
    }
    let mut k: usize = a;
    while k < b && t.get_char(k) != '='
        invariant
            a <= k <= b <= t@.len(),
            forall|j: int| a <= j < k ==> t@[j] != '=',
        decreases b - k,
    {
        k = k + 1;
    }
    if k == b {
        assert forall|m: int| !first_at(line, '=', m) by {
            if first_at(line, '=', m) {
                assert(line[m] == t@[a + m]);
            }
        }
        return;
    }
    let ghost kk = (k - a) as int;
    proof {
        assert(first_at(line, '=', kk));
        let c = first_index(line, '=');
        assert(first_at(line, '=', c));
        if c < kk {
            assert(line[c] == t@[a + c]);
        }
        if c > kk {
            assert(line[kk] == '=');
        }
    }
    let key = t.substring_char(a, k);
    let value = t.substring_char(k + 1, b);
    assert(key@ =~= line.take(kk));
    assert(value@ =~= line.skip(kk + 1));
    if same_text(key, "Name") {
        st.name = Some(value.to_owned());
    } else if same_text(key, "Path") {
        st.working_directory = Some(value.to_owned());
    } else if same_text(key, "Icon") {
        st.icon = Some(value.to_owned());
    } else if same_text(key, "Comment") {
        st.description = Some(value.to_owned());
    } else if same_text(key, "Exec") {
        let mut parts = split_range(t, k + 1, b, ' ');
        let ghost all = parts@;
        assert(parts@.len() > 0) by {
            assert(all.map_values(|p: String| p@).len() > 0) by {
                lemma_split_nonempty(value@, ' ');
            }
        }
        let command = parts.remove(0);
        assert(texts(parts@) =~= texts(all).drop_first());
        st.path = Some(command);
        st.arguments = Some(parts);
    } else if same_text(key, "Terminal") {
        st.show_terminal = same_text(value, "true");
    } else if same_text(key, "Categories") {
        let end = if b > k + 1 && t.get_char(b - 1) == ';' {
            b - 1
        } else {
            b
        };
        assert(value@.len() > 0 && value@.last() == ';' ==> t@.subrange(k + 1, end as int)
            =~= value@.drop_last());
        assert(end == b ==> t@.subrange(k + 1, end as int) =~= value@);
        let parts = split_range(t, k + 1, end, ';');
        st.categories = Some(parts);
    }
}

/// Reads a record from the text of a desktop-entry file.
pub fn read_shortcut_file(content: &str) -> (r: Result<ShortcutFile, LinuxShortcutError>)
    ensures
        match parse(content@) {
            Ok(m) => r is Ok && r->Ok_0@ == m,
            Err(key) => r is Err && r->Err_0 is MissingValue && (r->Err_0)->MissingValue_0@ == key,
        },
{
    let mut st = Scanned {
        name: None,
        path: None,
        icon: None,
        description: None,
        arguments: None,
        working_directory: None,
        show_terminal: false,
        categories: None,
    };
    let n = content.unicode_len();
    let mut start: usize = 0;
    let mut i: usize = 0;
    let ghost mut done: Seq<Seq<char>> = Seq::empty();
    assert(content@.subrange(0, 0) =~= Seq::<char>::empty());
    assert(done.push(content@.subrange(0, 0)) =~= seq![Seq::<char>::empty()]);
    while i < n
        invariant
            n == content@.len(),
            start <= i <= n,
            split(content@.subrange(0, i as int), '\n') == done.push(
                content@.subrange(start as int, i as int),
            ),
            st@ == scan_lines(done),
        decreases n - i,
    {
        let c = content.get_char(i);
        assert(content@.subrange(0, i as int + 1).drop_last() =~= content@.subrange(0, i as int));
        if c == '\n' {
            scan_line(&mut st, content, start, i);
            proof {
                let line = content@.subrange(start as int, i as int);
                assert(done.push(line).drop_last() =~= done);
                done = done.push(line);
            }
            start = i + 1;
            i = i + 1;
            assert(content@.subrange(start as int, i as int) =~= Seq::<char>::empty());
        } else {
            assert(content@.subrange(start as int, i as int + 1) =~= content@.subrange(
                start as int,
                i as int,
            ).push(c));
            i = i + 1;
        }
    }
    scan_line(&mut st, content, start, n);
    proof {
        let line = content@.subrange(start as int, n as int);
        assert(done.push(line).drop_last() =~= done);
        assert(content@.subrange(0, n as int) =~= content@);
        done = done.push(line);
    }
    assert(st@ == scan_lines(split(content@, '\n')));
    let Scanned {
        name,
        path,
        icon,
        description,
        arguments,
        working_directory,
        show_terminal,
        categories,
    } = st;
    let name = match name {
        Some(v) => v,
        None => return Err(LinuxShortcutError::MissingValue("Name")),
    };
    let path = match path {
        Some(v) => v,
        None => return Err(LinuxShortcutError::MissingValue("Path")),
    };
    let arguments = match arguments {
        Some(v) => v,
        None => {
            let v: Vec<String> = Vec::new();
            assert(texts(v@) =~= Seq::<Seq<char>>::empty());
            v
        },
    };
    let categories = match categories {
        Some(v) => v,
        None => {
            let v: Vec<String> = Vec::new();
            assert(texts(v@) =~= Seq::<Seq<char>>::empty());
            v
        },
    };
    let r = ShortcutFile {
        name,
        description,
        path,
        arguments,
        icon,
        working_directory,
        show_terminal,
        categories,
    };
    Ok(r)
}


/// The value of the `Exec` key: the path, then each argument after a space.
pub open spec fn exec_value(m: ShortcutModel) -> Seq<char> {
    if m.arguments.len() == 0 {
        m.path
    } else {
        m.path + " "@ + join(m.arguments, ' ')
    }
}

/// A `key=value` line for an optional value, or nothing.
pub open spec fn opt_line(key: Seq<char>, v: Option<Seq<char>>) -> Seq<char> {
    match v {
        Some(v) => key + v + "\n"@,
        None => Seq::empty(),
    }
}

/// The desktop-entry text of a record, keys in their fixed order.
pub open spec fn encode(m: ShortcutModel) -> Seq<char> {
    "[Desktop Entry]\n"@ + "Type=Application\n"@ + "Name="@ + m.name + "\n"@ + "Exec="@
        + exec_value(m) + "\n"@ + opt_line("Path="@, m.working_directory) + opt_line(
        "Icon="@,
        m.icon,
    ) + opt_line("Comment="@, m.description) + (if m.show_terminal {
        "Terminal=true\n"@
    } else {
        "Terminal=false\n"@
    }) + (if m.categories.len() == 0 {
        Seq::empty()
    } else {
        "Categories="@ + join(m.categories, ';') + ";\n"@
    })
}

fn push_opt_line(out: &mut String, key: &str, v: &Option<String>)
    ensures
        final(out)@ == old(out)@ + opt_line(key@, opt_text(*v)),
{
    match v {
        Some(v) => {
            out.append(key);
            out.append(v.as_str());
            out.append("\n");
            assert(final(out)@ =~= old(out)@ + (key@ + v@ + "\n"@));
        },
        None => {
            assert(final(out)@ =~= old(out)@ + Seq::<char>::empty());
        },
    }
}

/// The desktop-entry text of a record, to be written to its file.
pub fn save_shortcut_file(shortcut: &ShortcutFile) -> (r: String)
    ensures
        r@ == encode(shortcut@),
{
    let ghost m = shortcut@;
    let mut out = String::from_str("[Desktop Entry]\n");
    out.append("Type=Application\n");
    out.append("Name=");
    out.append(shortcut.name.as_str());
    out.append("\n");
    out.append("Exec=");
    out.append(shortcut.path.as_str());
    if shortcut.arguments.len() > 0 {
        out.append(" ");
        proof {
            reveal_strlit(" ");
            assert(" "@ =~= seq![' ']);
        }
        join_into(&mut out, &shortcut.arguments, " ", Ghost(' '));
    }
    out.append("\n");
    let ghost head = out@;
    assert(head =~= "[Desktop Entry]\n"@ + "Type=Application\n"@ + "Name="@ + m.name + "\n"@
        + "Exec="@ + exec_value(m) + "\n"@);
    push_opt_line(&mut out, "Path=", &shortcut.working_directory);
    push_opt_line(&mut out, "Icon=", &shortcut.icon);
    push_opt_line(&mut out, "Comment=", &shortcut.description);
    let ghost before_terminal = out@;
    if shortcut.show_terminal {
        out.append("Terminal=true\n");
    } else {
        out.append("Terminal=false\n");
    }
    let ghost before_categories = out@;
    if shortcut.categories.len() > 0 {
        out.append("Categories=");
        proof {
            reveal_strlit(";");
            assert(";"@ =~= seq![';']);
        }
        join_into(&mut out, &shortcut.categories, ";", Ghost(';'));
        out.append(";\n");
        assert(out@ =~= before_categories + ("Categories="@ + join(m.categories, ';') + ";\n"@));
    } else {
        assert(out@ =~= before_categories + Seq::<char>::empty());
    }
    assert(out@ =~= encode(m));
    out
}


/// Text that a value line carries unchanged: no line break, and no trailing
/// whitespace, which reading trims.
pub open spec fn clean_value(v: Seq<char>) -> bool {
    free_of(v, '\n') && !ends_in_space(v)
}

/// An optional value that is absent or clean.
pub open spec fn clean_option(v: Option<Seq<char>>) -> bool {
    match v {
        Some(v) => clean_value(v),
        None => true,
    }
}

/// Text that a space-separated token of the `Exec` value carries unchanged.
pub open spec fn clean_token(v: Seq<char>) -> bool {
    free_of(v, '\n') && free_of(v, ' ')
}

/// A record whose every field the desktop-entry text carries unchanged:
/// values without line breaks or trailing whitespace, path and arguments
/// without spaces, categories without `;`.
pub open spec fn text_representable(m: ShortcutModel) -> bool {
    &&& clean_value(m.name)
    &&& clean_option(m.description)
    &&& clean_option(m.icon)
    &&& clean_option(m.working_directory)
    &&& clean_token(m.path)
    &&& forall|i: int| 0 <= i < m.arguments.len() ==> clean_token(#[trigger] m.arguments[i])
    &&& !ends_in_space(exec_value(m))
    &&& forall|i: int|
        0 <= i < m.categories.len() ==> free_of(#[trigger] m.categories[i], '\n') && free_of(
            m.categories[i],
            ';',
        )
}

/// The value of a line's `Terminal` entry, as a sequence of none or one.
pub open spec fn terminal_of(l: Seq<char>) -> Seq<Seq<char>> {
    match line_entry(l) {
        Some((k, v)) => if k == "Terminal"@ {
            seq![v]
        } else {
            Seq::empty()
        },
        None => Seq::empty(),
    }
}

/// The values of the `Terminal` entries among the lines, in order.
pub open spec fn terminal_values(lines: Seq<Seq<char>>) -> Seq<Seq<char>>
    decreases lines.len(),
{
    if lines.len() == 0 {
        Seq::empty()
    } else {
        terminal_values(lines.drop_last()) + terminal_of(lines.last())
    }
}

/// A key that can open an entry line.
pub open spec fn plain_key(key: Seq<char>) -> bool {
    key.len() > 0 && !is_space(key[0]) && key[0] != '#' && free_of(key, '=') && free_of(key, '\n')
}

/// A line `key=value` holds that entry.
pub proof fn lemma_entry_line(key: Seq<char>, v: Seq<char>)
    requires
        plain_key(key),
        !ends_in_space(v),
    ensures
        line_entry(key + seq!['='] + v) == Some((key, v)),
{
    let l = key + seq!['='] + v;
    let k = key.len() as int;
    assert(l[0] == key[0]);
    if v.len() > 0 {
        assert(l.last() == v.last());
    } else {
        assert(l.last() == '=');
    }
    lemma_trim_id(l);
    assert(first_at(l, '=', k)) by {
        assert(l[k] == '=');
        assert forall|j: int| 0 <= j < k implies l[j] != '=' by {
            assert(l[j] == key[j]);
        }
    }
    let c = first_index(l, '=');
    assert(first_at(l, '=', c));
    if c < k {
        assert(l[c] == key[c]);
    }
    if c > k {
        assert(l[k] == '=');
    }
    assert(l.take(k) =~= key);
    assert(l.skip(k + 1) =~= v);
}

/// One more line, and its newline, after text whose split ends in an empty
/// piece.
pub proof fn lemma_add_line(x: Seq<char>, ls: Seq<Seq<char>>, l: Seq<char>)
    requires
        split(x, '\n') == ls.push(Seq::<char>::empty()),
        free_of(l, '\n'),
    ensures
        split(x + l.push('\n'), '\n') == ls.push(l).push(Seq::<char>::empty()),
        scan_lines(ls.push(l)) == read_line(scan_lines(ls), l),
        terminal_values(ls.push(l)) == terminal_values(ls) + terminal_of(l),
{
    lemma_split_append(x, l, '\n');
    assert(ls.push(Seq::<char>::empty()).update(ls.len() as int, Seq::<char>::empty() + l)
        =~= ls.push(l));
    assert(x + l.push('\n') =~= (x + l).push('\n'));
    assert((x + l).push('\n').drop_last() =~= x + l);
    assert(ls.push(l).drop_last() =~= ls);
}

/// One more `key=value` line.
proof fn lemma_entry_step(x: Seq<char>, ls: Seq<Seq<char>>, key: Seq<char>, v: Seq<char>) -> (r: (
    Seq<char>,
    Seq<Seq<char>>,
))
    requires
        split(x, '\n') == ls.push(Seq::<char>::empty()),
        plain_key(key),
        clean_value(v),
    ensures
        r.0 == x + (key + seq!['='] + v + seq!['\n']),
        split(r.0, '\n') == r.1.push(Seq::<char>::empty()),
        scan_lines(r.1) == apply_entry(scan_lines(ls), key, v),
        terminal_values(r.1) == terminal_values(ls) + (if key == "Terminal"@ {
            seq![v]
        } else {
            Seq::<Seq<char>>::empty()
        }),
{
    let l = key + seq!['='] + v;
    assert(free_of(l, '\n')) by {
        assert forall|i: int| 0 <= i < l.len() implies l[i] != '\n' by {
            if i < key.len() {
                assert(l[i] == key[i]);
            } else if i > key.len() {
                assert(l[i] == v[i - key.len() - 1]);
            }
        }
    }
    lemma_entry_line(key, v);
    lemma_add_line(x, ls, l);
    assert(x + l.push('\n') =~= x + (key + seq!['='] + v + seq!['\n']));
    (x + l.push('\n'), ls.push(l))
}

/// An optional `key=value` line.
proof fn lemma_option_step(
    x: Seq<char>,
    ls: Seq<Seq<char>>,
    key: Seq<char>,
    key_eq: Seq<char>,
    v: Option<Seq<char>>,
) -> (r: (Seq<char>, Seq<Seq<char>>))
    requires
        split(x, '\n') == ls.push(Seq::<char>::empty()),
        plain_key(key),
        key_eq == key.push('='),
        key != "Terminal"@,
        clean_option(v),
    ensures
        terminal_values(r.1) == terminal_values(ls),
        r.0 == x + opt_line(key_eq, v),
        split(r.0, '\n') == r.1.push(Seq::<char>::empty()),
        scan_lines(r.1) == match v {
            Some(v) => apply_entry(scan_lines(ls), key, v),
            None => scan_lines(ls),
        },
{
    reveal_strlit("\n");
    assert("\n"@ =~= seq!['\n']);
    match v {
        Some(w) => {
            let r = lemma_entry_step(x, ls, key, w);
            assert(terminal_values(ls) + Seq::<Seq<char>>::empty() =~= terminal_values(ls));
            assert(key + seq!['='] + w + seq!['\n'] =~= key_eq + w + "\n"@);
            r
        },
        None => {
            assert(x + Seq::<char>::empty() =~= x);
            (x, ls)
        },
    }
}

/// The `Exec` value is the path and the arguments joined by single spaces.
pub proof fn lemma_exec_value(m: ShortcutModel)
    ensures
        exec_value(m) == join(seq![m.path] + m.arguments, ' '),
{
    reveal_strlit(" ");
    assert(" "@ =~= seq![' ']);
    if m.arguments.len() == 0 {
        assert(seq![m.path] + m.arguments =~= seq![m.path]);
    } else {
        lemma_join_prepend(m.path, m.arguments, ' ');
        assert(m.path + " "@ + join(m.arguments, ' ') =~= m.path.push(' ') + join(
            m.arguments,
            ' ',
        ));
    }
}

/// The first four lines: header, type, name and `Exec`.
proof fn lemma_head(m: ShortcutModel) -> (r: (Seq<char>, Seq<Seq<char>>))
    requires
        text_representable(m),
    ensures
        r.0 == "[Desktop Entry]\n"@ + "Type=Application\n"@ + "Name="@ + m.name + "\n"@ + "Exec="@
            + exec_value(m) + "\n"@,
        split(r.0, '\n') == r.1.push(Seq::<char>::empty()),
        scan_lines(r.1) == (Scan {
            name: Some(m.name),
            path: Some(m.path),
            arguments: Some(m.arguments),
            ..empty_scan()
        }),
        terminal_values(r.1) == Seq::<Seq<char>>::empty(),
{
    reveal_strlit("[Desktop Entry]");
    reveal_strlit("[Desktop Entry]\n");
    reveal_strlit("Type");
    reveal_strlit("Application");
    reveal_strlit("Type=Application\n");
    reveal_strlit("Name");
    reveal_strlit("Name=");
    reveal_strlit("Exec");
    reveal_strlit("Exec=");
    reveal_strlit("Path");
    reveal_strlit("Icon");
    reveal_strlit("Comment");
    reveal_strlit("Terminal");
    reveal_strlit("Categories");
    reveal_strlit("\n");
    assert("\n"@ =~= seq!['\n']);
    assert("Name="@ =~= "Name"@.push('='));
    assert("Exec="@ =~= "Exec"@.push('='));
    assert(plain_key("Type"@));
    assert(plain_key("Name"@));
    assert(plain_key("Exec"@));
    // The header line holds no entry.
    let l0 = "[Desktop Entry]"@;
    assert(free_of(l0, '='));
    assert(free_of(l0, '\n'));
    lemma_trim_id(l0);
    assert(!(exists|k: int| first_at(l0, '=', k)));
    let x0 = Seq::<char>::empty();
    let ls0 = Seq::<Seq<char>>::empty();
    assert(split(x0, '\n') == ls0.push(Seq::<char>::empty()));
    lemma_add_line(x0, ls0, l0);
    let x1 = x0 + l0.push('\n');
    let ls1 = ls0.push(l0);
    assert(x1 =~= "[Desktop Entry]\n"@);
    assert(scan_lines(ls0) == empty_scan());
    assert(scan_lines(ls1) == empty_scan());
    // The type line names a key that is not read.
    assert(clean_value("Application"@));
    let (x2, ls2) = lemma_entry_step(x1, ls1, "Type"@, "Application"@);
    assert(x2 =~= "[Desktop Entry]\n"@ + "Type=Application\n"@);
    assert(scan_lines(ls2) == empty_scan());
    let (x3, ls3) = lemma_entry_step(x2, ls2, "Name"@, m.name);
    assert(x3 =~= "[Desktop Entry]\n"@ + "Type=Application\n"@ + "Name="@ + m.name + "\n"@);
    let ev = exec_value(m);
    let toks = seq![m.path] + m.arguments;
    lemma_exec_value(m);
    assert forall|i: int| 0 <= i < toks.len() implies free_of(#[trigger] toks[i], ' ') && free_of(
        toks[i],
        '\n',
    ) by {
        if i > 0 {
            assert(toks[i] == m.arguments[i - 1]);
        }
    }
    lemma_join_free(toks, ' ', '\n');
    lemma_split_join(toks, ' ');
    let (x4, ls4) = lemma_entry_step(x3, ls3, "Exec"@, ev);
    assert(x4 =~= "[Desktop Entry]\n"@ + "Type=Application\n"@ + "Name="@ + m.name + "\n"@
        + "Exec="@ + ev + "\n"@);
    assert(split(ev, ' ').drop_first() =~= m.arguments);
    reveal_strlit("Terminal");
    assert(terminal_values(ls0) =~= Seq::<Seq<char>>::empty());
    assert(terminal_values(ls1) =~= Seq::<Seq<char>>::empty());
    assert(terminal_values(ls2) =~= Seq::<Seq<char>>::empty());
    assert(terminal_values(ls3) =~= Seq::<Seq<char>>::empty());
    assert(terminal_values(ls4) =~= Seq::<Seq<char>>::empty());
    (x4, ls4)
}

/// The optional lines and the terminal line.
proof fn lemma_middle(m: ShortcutModel, x: Seq<char>, ls: Seq<Seq<char>>) -> (r: (
    Seq<char>,
    Seq<Seq<char>>,
))
    requires
        text_representable(m),
        split(x, '\n') == ls.push(Seq::<char>::empty()),
        scan_lines(ls) == (Scan {
            name: Some(m.name),
            path: Some(m.path),
            arguments: Some(m.arguments),
            ..empty_scan()
        }),
    ensures
        r.0 == x + opt_line("Path="@, m.working_directory) + opt_line("Icon="@, m.icon) + opt_line(
            "Comment="@,
            m.description,
        ) + (if m.show_terminal {
            "Terminal=true\n"@
        } else {
            "Terminal=false\n"@
        }),
        split(r.0, '\n') == r.1.push(Seq::<char>::empty()),
        scan_lines(r.1) == (Scan {
            name: Some(m.name),
            path: Some(m.path),
            arguments: Some(m.arguments),
            working_directory: m.working_directory,
            icon: m.icon,
            description: m.description,
            show_terminal: m.show_terminal,
            categories: None,
        }),
        terminal_values(r.1) == terminal_values(ls).push(
            if m.show_terminal {
                "true"@
            } else {
                "false"@
            },
        ),
{
    reveal_strlit("Name");
    reveal_strlit("Exec");
    reveal_strlit("Path");
    reveal_strlit("Path=");
    reveal_strlit("Icon");
    reveal_strlit("Icon=");
    reveal_strlit("Comment");
    reveal_strlit("Comment=");
    reveal_strlit("Terminal");
    reveal_strlit("Terminal=true\n");
    reveal_strlit("Terminal=false\n");
    reveal_strlit("true");
    reveal_strlit("false");
    reveal_strlit("Categories");
    assert("Path="@ =~= "Path"@.push('='));
    assert("Icon="@ =~= "Icon"@.push('='));
    assert("Comment="@ =~= "Comment"@.push('='));
    assert(plain_key("Path"@));
    assert(plain_key("Icon"@));
    assert(plain_key("Comment"@));
    assert(plain_key("Terminal"@));
    let (x5, ls5) = lemma_option_step(x, ls, "Path"@, "Path="@, m.working_directory);
    let (x6, ls6) = lemma_option_step(x5, ls5, "Icon"@, "Icon="@, m.icon);
    let (x7, ls7) = lemma_option_step(x6, ls6, "Comment"@, "Comment="@, m.description);
    let tv = if m.show_terminal {
        "true"@
    } else {
        "false"@
    };
    assert(clean_value(tv));
    let (x8, ls8) = lemma_entry_step(x7, ls7, "Terminal"@, tv);
    if m.show_terminal {
        assert(x8 =~= x7 + "Terminal=true\n"@);
    } else {
        assert(x8 =~= x7 + "Terminal=false\n"@);
    }
    assert(terminal_values(ls7) + seq![tv] =~= terminal_values(ls).push(tv));
    (x8, ls8)
}

/// The categories line, where there is one.
proof fn lemma_tail(m: ShortcutModel, x: Seq<char>, ls: Seq<Seq<char>>, st: Scan) -> (r: (
    Seq<char>,
    Seq<Seq<char>>,
))
    requires
        text_representable(m),
        split(x, '\n') == ls.push(Seq::<char>::empty()),
        scan_lines(ls) == st,
        st.categories is None,
    ensures
        r.0 == x + (if m.categories.len() == 0 {
            Seq::empty()
        } else {
            "Categories="@ + join(m.categories, ';') + ";\n"@
        }),
        split(r.0, '\n') == r.1.push(Seq::<char>::empty()),
        scan_lines(r.1) == (Scan {
            categories: if m.categories.len() == 0 {
                None
            } else {
                Some(m.categories)
            },
            ..st
        }),
        terminal_values(r.1) == terminal_values(ls),
{
    reveal_strlit("Name");
    reveal_strlit("Exec");
    reveal_strlit("Path");
    reveal_strlit("Icon");
    reveal_strlit("Comment");
    reveal_strlit("Terminal");
    reveal_strlit("Categories");
    reveal_strlit("Categories=");
    reveal_strlit(";\n");
    assert("Categories="@ =~= "Categories"@.push('='));
    assert(plain_key("Categories"@));
    if m.categories.len() == 0 {
        assert(x + Seq::<char>::empty() =~= x);
        (x, ls)
    } else {
        let cv = join(m.categories, ';').push(';');
        lemma_join_free(m.categories, ';', '\n');
        assert(clean_value(cv)) by {
            assert(cv.last() == ';');
            assert forall|i: int| 0 <= i < cv.len() implies cv[i] != '\n' by {
                if i < cv.len() - 1 {
                    assert(cv[i] == join(m.categories, ';')[i]);
                }
            }
        }
        let (x9, ls9) = lemma_entry_step(x, ls, "Categories"@, cv);
        assert(terminal_values(ls) + Seq::<Seq<char>>::empty() =~= terminal_values(ls));
        assert(x9 =~= x + ("Categories="@ + join(m.categories, ';') + ";\n"@));
        lemma_split_join(m.categories, ';');
        assert(cv.drop_last() =~= join(m.categories, ';'));
        assert(category_list(cv) == m.categories);
        (x9, ls9)
    }
}

/// Reading the text that a record encodes to gives exactly that record back,
/// on every record whose fields the format carries unchanged.
pub proof fn lemma_round_trip(m: ShortcutModel)
    requires
        text_representable(m),
    ensures
        parse(encode(m)) == Ok::<ShortcutModel, Seq<char>>(m),
{
    let (x4, ls4) = lemma_head(m);
    let (x8, ls8) = lemma_middle(m, x4, ls4);
    let st8 = scan_lines(ls8);
    let (x9, ls9) = lemma_tail(m, x8, ls8, st8);
    assert(x9 =~= encode(m));
    // The empty piece after the last newline holds no entry.
    assert(trim(Seq::<char>::empty()) =~= Seq::<char>::empty());
    assert(ls9.push(Seq::<char>::empty()).drop_last() =~= ls9);
    assert(scan_lines(ls9.push(Seq::<char>::empty())) == scan_lines(ls9));
    assert(split(encode(m), '\n') == ls9.push(Seq::<char>::empty()));
    let st = scan_lines(split(encode(m), '\n'));
    assert(st == scan_lines(ls9));
    assert(st.name == Some(m.name));
    assert(st.path == Some(m.path));
    assert(st.arguments == Some(m.arguments));
    assert(st.working_directory == m.working_directory);
    assert(st.icon == m.icon);
    assert(st.description == m.description);
    assert(st.show_terminal == m.show_terminal);
    if m.categories.len() == 0 {
        assert(st.categories is None);
        assert(m.categories =~= Seq::<Seq<char>>::empty());
    } else {
        assert(st.categories == Some(m.categories));
    }
}

/// Whether some line holds an entry for `key`.
pub open spec fn has_entry(lines: Seq<Seq<char>>, key: Seq<char>) -> bool {
    exists|i: int|
        0 <= i < lines.len() && (line_entry(#[trigger] lines[i]) matches Some((k, _)) && k == key)
}

/// A scan over two sequences of lines is the scan of the second from where
/// the first left off.
pub proof fn lemma_scan_concat(st: Scan, xs: Seq<Seq<char>>, ys: Seq<Seq<char>>)
    ensures
        scan_from(st, xs + ys) == scan_from(scan_from(st, xs), ys),
    decreases ys.len(),
{
    if ys.len() == 0 {
        assert(xs + ys =~= xs);
    } else {
        lemma_scan_concat(st, xs, ys.drop_last());
        assert((xs + ys).drop_last() =~= xs + ys.drop_last());
        assert((xs + ys).last() == ys.last());
    }
}

proof fn lemma_scan_keeps_name(st: Scan, ls: Seq<Seq<char>>)
    requires
        !has_entry(ls, "Name"@),
    ensures
        scan_from(st, ls).name == st.name,
    decreases ls.len(),
{
    if ls.len() > 0 {
        let init = ls.drop_last();
        assert(!has_entry(init, "Name"@)) by {
            if has_entry(init, "Name"@) {
                let i = choose|i: int|
                    0 <= i < init.len() && (line_entry(#[trigger] init[i]) matches Some((k, _))
                        && k == "Name"@);
                assert(ls[i] == init[i]);
            }
        }
        lemma_scan_keeps_name(st, init);
        assert(ls.last() == ls[ls.len() - 1]);
    }
}

proof fn lemma_scan_keeps_path(st: Scan, ls: Seq<Seq<char>>)
    requires
        !has_entry(ls, "Exec"@),
    ensures
        scan_from(st, ls).path == st.path,
    decreases ls.len(),
{
    if ls.len() > 0 {
        let init = ls.drop_last();
        assert(!has_entry(init, "Exec"@)) by {
            if has_entry(init, "Exec"@) {
                let i = choose|i: int|
                    0 <= i < init.len() && (line_entry(#[trigger] init[i]) matches Some((k, _))
                        && k == "Exec"@);
                assert(ls[i] == init[i]);
            }
        }
        lemma_scan_keeps_path(st, init);
        assert(ls.last() == ls[ls.len() - 1]);
        reveal_strlit("Exec");
        reveal_strlit("Name");
        reveal_strlit("Path");
        reveal_strlit("Icon");
        reveal_strlit("Comment");
    }
}

proof fn lemma_scan_finds_name(st: Scan, ls: Seq<Seq<char>>)
    requires
        has_entry(ls, "Name"@),
    ensures
        scan_from(st, ls).name is Some,
    decreases ls.len(),
{
    let init = ls.drop_last();
    let i = choose|i: int|
        0 <= i < ls.len() && (line_entry(#[trigger] ls[i]) matches Some((k, _)) && k == "Name"@);
    if i == ls.len() - 1 {
        assert(ls.last() == ls[i]);
    } else {
        assert(init[i] == ls[i]);
        lemma_scan_finds_name(st, init);
    }
}

/// A text with no `Name` entry is refused for its missing name.
pub proof fn lemma_missing_name(t: Seq<char>)
    requires
        !has_entry(split(t, '\n'), "Name"@),
    ensures
        parse(t) == Err::<ShortcutModel, Seq<char>>("Name"@),
{
    lemma_scan_keeps_name(empty_scan(), split(t, '\n'));
}

/// A text with a `Name` entry but no `Exec` entry is refused for its missing
/// path.
pub proof fn lemma_missing_path(t: Seq<char>)
    requires
        has_entry(split(t, '\n'), "Name"@),
        !has_entry(split(t, '\n'), "Exec"@),
    ensures
        parse(t) == Err::<ShortcutModel, Seq<char>>("Path"@),
{
    lemma_scan_finds_name(empty_scan(), split(t, '\n'));
    lemma_scan_keeps_path(empty_scan(), split(t, '\n'));
}

/// A line with an unknown key, or with no entry, between two lines changes
/// nothing that is read.
pub proof fn lemma_unknown_line_ignored(a: Seq<char>, l: Seq<char>, b: Seq<char>)
    requires
        free_of(l, '\n'),
        match line_entry(l) {
            Some((k, _)) => !known_key(k),
            None => true,
        },
    ensures
        parse(a.push('\n') + l.push('\n') + b) == parse(a.push('\n') + b),
{
    lemma_split_concat(a, l.push('\n') + b, '\n');
    assert(a.push('\n') + l.push('\n') + b =~= a.push('\n') + (l.push('\n') + b));
    lemma_split_concat(l, b, '\n');
    lemma_split_single(l, '\n');
    lemma_split_concat(a, b, '\n');
    let sa = split(a, '\n');
    let sb = split(b, '\n');
    assert(sa + (seq![l] + sb) =~= sa.push(l) + sb);
    lemma_scan_concat(empty_scan(), sa.push(l), sb);
    lemma_scan_concat(empty_scan(), sa, sb);
    assert(sa.push(l).drop_last() =~= sa);
    let st = scan_from(empty_scan(), sa);
    assert(read_line(st, l) == st);
}

proof fn lemma_terminal_from(st: Scan, ls: Seq<Seq<char>>)
    ensures
        scan_from(st, ls).show_terminal == if terminal_values(ls).len() > 0 {
            terminal_values(ls).last() == "true"@
        } else {
            st.show_terminal
        },
    decreases ls.len(),
{
    if ls.len() > 0 {
        lemma_terminal_from(st, ls.drop_last());
        reveal_strlit("Exec");
        reveal_strlit("Name");
        reveal_strlit("Path");
        reveal_strlit("Icon");
        reveal_strlit("Comment");
        reveal_strlit("Terminal");
        reveal_strlit("Categories");
        let prev = terminal_values(ls.drop_last());
        let here = terminal_of(ls.last());
        let st0 = scan_from(st, ls.drop_last());
        assert(scan_from(st, ls) == read_line(st0, ls.last()));
        match line_entry(ls.last()) {
            Some((k, v)) => {
                if k == "Terminal"@ {
                    assert(here == seq![v]);
                    assert((prev + here).last() == v);
                    assert(read_line(st0, ls.last()) == apply_entry(st0, k, v));
                    assert("Terminal"@.len() == 8);
                    assert("Name"@.len() == 4 && "Path"@.len() == 4 && "Icon"@.len() == 4);
                    assert("Comment"@.len() == 7 && "Exec"@.len() == 4);
                    assert(k != "Name"@ && k != "Path"@ && k != "Icon"@ && k != "Comment"@ && k
                        != "Exec"@);
                    assert(apply_entry(st0, k, v).show_terminal == (v == "true"@));
                } else {
                    assert(here =~= Seq::<Seq<char>>::empty());
                    assert(prev + here =~= prev);
                    assert(scan_from(st, ls).show_terminal == st0.show_terminal);
                }
            },
            None => {
                assert(here =~= Seq::<Seq<char>>::empty());
                assert(prev + here =~= prev);
            },
        }
    }
}

/// The terminal flag that is read is whether the last `Terminal` entry has
/// exactly the value `true`: any other value, or no such entry, leaves it
/// unset.
pub proof fn lemma_terminal_flag(t: Seq<char>)
    ensures
        parse(t) matches Ok(m) ==> m.show_terminal == (terminal_values(split(t, '\n')).len() > 0
            && terminal_values(split(t, '\n')).last() == "true"@),
{
    lemma_terminal_from(empty_scan(), split(t, '\n'));
}

/// The text of a record whose fields the format carries unchanged has
/// exactly one `Terminal` entry, whose value is the literal `true` or
/// `false` of its flag.
pub proof fn lemma_terminal_line(m: ShortcutModel)
    requires
        text_representable(m),
    ensures
        terminal_values(split(encode(m), '\n')) == seq![
            if m.show_terminal {
                "true"@
            } else {
                "false"@
            },
        ],
{
    let (x4, ls4) = lemma_head(m);
    let (x8, ls8) = lemma_middle(m, x4, ls4);
    let (x9, ls9) = lemma_tail(m, x8, ls8, scan_lines(ls8));
    assert(x9 =~= encode(m));
    assert(trim(Seq::<char>::empty()) =~= Seq::<char>::empty());
    let all = ls9.push(Seq::<char>::empty());
    assert(all.drop_last() =~= ls9);
    assert(terminal_of(Seq::<char>::empty()) =~= Seq::<Seq<char>>::empty());
    assert(terminal_values(all) =~= terminal_values(ls9));
    assert(Seq::<Seq<char>>::empty().push(
        if m.show_terminal {
            "true"@
        } else {
            "false"@
        },
    ) =~= seq![
        if m.show_terminal {
            "true"@
        } else {
            "false"@
        },
    ]);
}

/// A first line with an unknown key, or with no entry, changes nothing that
/// is read.
pub proof fn lemma_unknown_first_line_ignored(l: Seq<char>, b: Seq<char>)
    requires
        free_of(l, '\n'),
        match line_entry(l) {
            Some((k, _)) => !known_key(k),
            None => true,
        },
    ensures
        parse(l.push('\n') + b) == parse(b),
{
    lemma_split_concat(l, b, '\n');
    lemma_split_single(l, '\n');
    let sb = split(b, '\n');
    lemma_scan_concat(empty_scan(), seq![l], sb);
    assert(seq![l].drop_last() =~= Seq::<Seq<char>>::empty());
    assert(read_line(empty_scan(), l) == empty_scan());
    assert(seq![l].last() == l);
    assert(scan_from(empty_scan(), Seq::<Seq<char>>::empty()) == empty_scan());
    assert(scan_from(empty_scan(), seq![l]) == empty_scan());
}

} // verus!
