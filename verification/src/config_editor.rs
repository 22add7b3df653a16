//! The formatting-preserving configuration editor: the file is held as its
//! lines, edits touch only the lines they are about, and writing a file
//! that no edit was applied to reproduces it exactly.  Each policy problem
//! proposes zero or more structured edits.

use vstd::prelude::*;

use crate::config::SandboxKind;
use crate::problem::Problem;
use crate::textutil::{
    is_prefix_of, join_char, join_spec, lemma_join_split_round_trip, split_char, split_spec,
    str_starts_with,
};

verus! {

/// The configuration text, split at newlines.
pub struct ConfigEditor {
    pub lines: Vec<String>,
}

/// The views of the editor's lines.
pub open spec fn line_views(lines: Seq<String>) -> Seq<Seq<char>> {
    lines.map_values(|s: String| s@)
}

/// The first line from position `i` that equals `t`; the length when none
/// does.
pub open spec fn first_eq_from(ls: Seq<Seq<char>>, t: Seq<char>, i: int) -> int
    decreases ls.len() - i,
{
    if i < 0 || i >= ls.len() {
        ls.len() as int
    } else if ls[i] == t {
        i
    } else {
        first_eq_from(ls, t, i + 1)
    }
}

/// The first line from position `i` that opens a table; the length when
/// none does.
pub open spec fn first_open_from(ls: Seq<Seq<char>>, i: int) -> int
    decreases ls.len() - i,
{
    if i < 0 || i >= ls.len() {
        ls.len() as int
    } else if ls[i].len() > 0 && ls[i][0] == '[' {
        i
    } else {
        first_open_from(ls, i + 1)
    }
}

/// The first line from position `i` that starts with `p`; the length when
/// none does.
pub open spec fn first_pref_from(ls: Seq<Seq<char>>, p: Seq<char>, i: int) -> int
    decreases ls.len() - i,
{
    if i < 0 || i >= ls.len() {
        ls.len() as int
    } else if is_prefix_of(p, ls[i]) {
        i
    } else {
        first_pref_from(ls, p, i + 1)
    }
}

pub proof fn lemma_first_eq_at(ls: Seq<Seq<char>>, t: Seq<char>, i: int, j: int)
    requires
        0 <= i <= j <= ls.len(),
        forall|k: int| i <= k < j ==> ls[k] != t,
        j < ls.len() ==> ls[j] == t,
    ensures
        first_eq_from(ls, t, i) == j,
    decreases j - i,
{
    if i < j {
        lemma_first_eq_at(ls, t, i + 1, j);
    }
}

pub proof fn lemma_first_open_at(ls: Seq<Seq<char>>, i: int, j: int)
    requires
        0 <= i <= j <= ls.len(),
        forall|k: int| i <= k < j ==> !((#[trigger] ls[k]).len() > 0 && ls[k][0] == '['),
        j < ls.len() ==> ls[j].len() > 0 && ls[j][0] == '[',
    ensures
        first_open_from(ls, i) == j,
    decreases j - i,
{
    if i < j {
        lemma_first_open_at(ls, i + 1, j);
    }
}

pub proof fn lemma_first_pref_at(ls: Seq<Seq<char>>, p: Seq<char>, i: int, j: int)
    requires
        0 <= i <= j <= ls.len(),
        forall|k: int| i <= k < j ==> !is_prefix_of(p, #[trigger] ls[k]),
        j < ls.len() ==> is_prefix_of(p, ls[j]),
    ensures
        first_pref_from(ls, p, i) == j,
    decreases j - i,
{
    if i < j {
        lemma_first_pref_at(ls, p, i + 1, j);
    }
}

impl ConfigEditor {
    /// Reads the configuration from its text: the lines between newlines.
    pub fn from_toml_string(text: &str) -> (r: ConfigEditor)
        ensures
            line_views(r.lines@) == split_spec(text@, '\n'),
    {
        ConfigEditor { lines: split_char(text, '\n') }
    }

    /// Writes the configuration back as text: the lines joined with
    /// newlines.
    pub fn to_toml(&self) -> (r: String)
        ensures
            r@ == join_spec(line_views(self.lines@), '\n'),
    {
        proof {
            reveal_strlit("\n");
            assert("\n"@ =~= seq!['\n']);
        }
        join_char(&self.lines, "\n", Ghost('\n'))
    }

    /// A copy holding the same lines.
    pub fn duplicate(&self) -> (r: ConfigEditor)
        ensures
            line_views(r.lines@) == line_views(self.lines@),
    {
        let lines = crate::textutil::clone_string_vec(&self.lines);
        proof {
            assert(line_views(lines@) =~= line_views(self.lines@));
        }
        ConfigEditor { lines }
    }

    /// Whether two editors hold the same text.
    pub fn same_text(&self, other: &ConfigEditor) -> (r: bool)
        ensures
            r == (line_views(self.lines@) == line_views(other.lines@)),
    {
        if self.lines.len() != other.lines.len() {
            proof {
                assert(line_views(self.lines@).len() != line_views(other.lines@).len());
            }
            return false;
        }
        let mut i: usize = 0;
        while i < self.lines.len()
            invariant
                self.lines@.len() == other.lines@.len(),
                i <= self.lines@.len(),
                forall|k: int|
                    0 <= k < i ==> (#[trigger] self.lines@[k])@ == (#[trigger] other.lines@[k])@,
            decreases self.lines@.len() - i,
        {
            if self.lines[i] != other.lines[i] {
                proof {
                    assert(line_views(self.lines@)[i as int] != line_views(
                        other.lines@,
                    )[i as int]);
                }
                return false;
            }
            i = i + 1;
        }
        proof {
            assert(line_views(self.lines@) =~= line_views(other.lines@));
        }
        true
    }
}

/// Reading a configuration and writing it straight back gives the very
/// same text: splitting at newlines and joining with newlines round-trips.
pub proof fn lemma_editor_round_trip(text: Seq<char>)
    ensures
        join_spec(split_spec(text, '\n'), '\n') == text,
{
    lemma_join_split_round_trip(text, '\n');
}

/// What a `set_key_line` edit does: under an existing table header the key
/// line is rewritten in place or inserted right after the header; a
/// missing table is appended with the line, after a blank separator.
pub open spec fn set_key_line_spec(
    ls: Seq<Seq<char>>,
    header: Seq<char>,
    key_prefix: Seq<char>,
    line: Seq<char>,
) -> Seq<Seq<char>> {
    let hi = first_eq_from(ls, header, 0);
    if hi == ls.len() {
        ls + seq![Seq::<char>::empty(), header, line]
    } else {
        let te = first_open_from(ls, hi + 1);
        let ki = first_pref_from(ls, key_prefix, hi + 1);
        if ki < te {
            ls.update(ki, line)
        } else {
            ls.insert(hi + 1, line)
        }
    }
}

/// What an `add_array_item` edit does: the item line is inserted before
/// the closing bracket of the array opened by `open_line` in the table,
/// or array and table are created as needed.
pub open spec fn add_array_item_spec(
    ls: Seq<Seq<char>>,
    header: Seq<char>,
    open_line: Seq<char>,
    item: Seq<char>,
) -> Seq<Seq<char>> {
    let hi = first_eq_from(ls, header, 0);
    if hi == ls.len() {
        ls + seq![Seq::<char>::empty(), header, open_line, item, "]"@]
    } else {
        let te = first_open_from(ls, hi + 1);
        let ki = first_eq_from(ls, open_line, hi + 1);
        if ki < te {
            let ci = first_eq_from(ls, "]"@, ki + 1);
            if ci < ls.len() {
                ls.insert(ci, item)
            } else {
                ls
            }
        } else {
            ls.insert(hi + 1, "]"@).insert(hi + 1, item).insert(hi + 1, open_line)
        }
    }
}

impl ConfigEditor {
    /// The position of the first line equal to `target`, or the length.
    fn find_eq_from(&self, target: &String, start: usize) -> (r: usize)
        requires
            start <= self.lines@.len(),
        ensures
            r as int == first_eq_from(line_views(self.lines@), target@, start as int),
            r <= self.lines@.len(),
    {
        let n = self.lines.len();
        let mut i: usize = start;
        while i < n
            invariant
                start <= i <= n,
                n == self.lines@.len(),
                forall|k: int|
                    start <= k < i ==> (#[trigger] self.lines@[k])@ != target@,
            decreases n - i,
        {
            if self.lines[i] == *target {
                proof {
                    assert(line_views(self.lines@)[i as int] == target@);
                    assert forall|k: int|
                        start <= k < i implies line_views(self.lines@)[k] != target@ by {
                        assert(self.lines@[k]@ != target@);
                    }
                    lemma_first_eq_at(
                        line_views(self.lines@),
                        target@,
                        start as int,
                        i as int,
                    );
                }
                return i;
            }
            i = i + 1;
        }
        proof {
            assert forall|k: int|
                start <= k < n implies line_views(self.lines@)[k] != target@ by {
                assert(self.lines@[k]@ != target@);
            }
            lemma_first_eq_at(line_views(self.lines@), target@, start as int, n as int);
        }
        n
    }

    /// The position of the first table-opening line at or after `start`.
    fn find_open_from(&self, start: usize) -> (r: usize)
        requires
            start <= self.lines@.len(),
        ensures
            r as int == first_open_from(line_views(self.lines@), start as int),
            r <= self.lines@.len(),
    {
        let n = self.lines.len();
        let mut i: usize = start;
        while i < n
            invariant
                start <= i <= n,
                n == self.lines@.len(),
                forall|k: int|
                    start <= k < i ==> !((#[trigger] self.lines@[k])@.len() > 0
                        && self.lines@[k]@[0] == '['),
            decreases n - i,
        {
            let s = self.lines[i].as_str();
            let opens = s.unicode_len() > 0 && s.get_char(0) == '[';
            if opens {
                proof {
                    assert forall|k: int|
                        start <= k < i implies !((#[trigger] line_views(self.lines@)[k]).len()
                            > 0 && line_views(self.lines@)[k][0] == '[') by {
                        assert(!(self.lines@[k]@.len() > 0 && self.lines@[k]@[0] == '['));
                    }
                    lemma_first_open_at(line_views(self.lines@), start as int, i as int);
                }
                return i;
            }
            i = i + 1;
        }
        proof {
            assert forall|k: int|
                start <= k < n implies !((#[trigger] line_views(self.lines@)[k]).len() > 0
                    && line_views(self.lines@)[k][0] == '[') by {
                assert(!(self.lines@[k]@.len() > 0 && self.lines@[k]@[0] == '['));
            }
            lemma_first_open_at(line_views(self.lines@), start as int, n as int);
        }
        n
    }

    /// The position of the first line starting with `prefix` at or after
    /// `start`.
    fn find_pref_from(&self, prefix: &String, start: usize) -> (r: usize)
        requires
            start <= self.lines@.len(),
        ensures
            r as int == first_pref_from(line_views(self.lines@), prefix@, start as int),
            r <= self.lines@.len(),
    {
        let n = self.lines.len();
        let mut i: usize = start;
        while i < n
            invariant
                start <= i <= n,
                n == self.lines@.len(),
                forall|k: int|
                    start <= k < i ==> !is_prefix_of(prefix@, (#[trigger] self.lines@[k])@),
            decreases n - i,
        {
            if str_starts_with(self.lines[i].as_str(), prefix.as_str()) {
                proof {
                    assert forall|k: int|
                        start <= k < i implies !is_prefix_of(
                        prefix@,
                        #[trigger] line_views(self.lines@)[k],
                    ) by {
                        assert(!is_prefix_of(prefix@, self.lines@[k]@));
                    }
                    lemma_first_pref_at(
                        line_views(self.lines@),
                        prefix@,
                        start as int,
                        i as int,
                    );
                }
                return i;
            }
            i = i + 1;
        }
        proof {
            assert forall|k: int|
                start <= k < n implies !is_prefix_of(
                prefix@,
                #[trigger] line_views(self.lines@)[k],
            ) by {
                assert(!is_prefix_of(prefix@, self.lines@[k]@));
            }
            lemma_first_pref_at(line_views(self.lines@), prefix@, start as int, n as int);
        }
        n
    }

    /// Sets a single-line key under a table header, touching nothing else.
    pub fn set_key_line(&mut self, header: String, key_prefix: &String, line: String)
        ensures
            line_views(final(self).lines@) == set_key_line_spec(
                line_views(old(self).lines@),
                header@,
                key_prefix@,
                line@,
            ),
    {
        let ghost ls = line_views(self.lines@);
        let hi = self.find_eq_from(&header, 0);
        if hi == self.lines.len() {
            self.lines.push(String::new());
            self.lines.push(header);
            self.lines.push(line);
            proof {
                assert(line_views(self.lines@) =~= ls + seq![
                    Seq::<char>::empty(),
                    line_views(self.lines@)[ls.len() as int + 1],
                    line_views(self.lines@)[ls.len() as int + 2],
                ]);
            }
        } else {
            let te = self.find_open_from(hi + 1);
            let ki = self.find_pref_from(key_prefix, hi + 1);
            if ki < te {
                proof {
                    assert(ki < self.lines@.len());
                }
                let slot = crate::textutil::vec_mut_ref(&mut self.lines, ki);
                *slot = line;
                proof {
                    assert(line_views(self.lines@) =~= ls.update(ki as int, line@));
                }
            } else {
                self.lines.insert(hi + 1, line);
                proof {
                    assert(line_views(self.lines@) =~= ls.insert(hi as int + 1, line@));
                }
            }
        }
    }

    /// Adds one item line to an array under a table header, creating the
    /// array or the table when absent; a malformed array (no closing
    /// bracket) is left untouched.
    pub fn add_array_item(&mut self, header: String, open_line: String, item: String)
        ensures
            line_views(final(self).lines@) == add_array_item_spec(
                line_views(old(self).lines@),
                header@,
                open_line@,
                item@,
            ),
    {
        let ghost ls = line_views(self.lines@);
        let hi = self.find_eq_from(&header, 0);
        if hi == self.lines.len() {
            self.lines.push(String::new());
            self.lines.push(header);
            self.lines.push(open_line);
            self.lines.push(item);
            let mut close = String::new();
            close.append("]");
            proof {
                assert(close@ =~= "]"@);
            }
            self.lines.push(close);
            proof {
                assert(line_views(self.lines@) =~= ls + seq![
                    Seq::<char>::empty(),
                    line_views(self.lines@)[ls.len() as int + 1],
                    line_views(self.lines@)[ls.len() as int + 2],
                    line_views(self.lines@)[ls.len() as int + 3],
                    "]"@,
                ]);
            }
        } else {
            let te = self.find_open_from(hi + 1);
            let ki = self.find_eq_from(&open_line, hi + 1);
            if ki < te {
                let mut close = String::new();
                close.append("]");
                proof {
                    assert(close@ =~= "]"@);
                }
                let ci = self.find_eq_from(&close, ki + 1);
                if ci < self.lines.len() {
                    self.lines.insert(ci, item);
                    proof {
                        assert(line_views(self.lines@) =~= ls.insert(ci as int, item@));
                    }
                }
            } else {
                let mut close = String::new();
                close.append("]");
                proof {
                    assert(close@ =~= "]"@);
                }
                self.lines.insert(hi + 1, close);
                self.lines.insert(hi + 1, item);
                self.lines.insert(hi + 1, open_line);
                proof {
                    assert(line_views(self.lines@) =~= ls.insert(hi as int + 1, "]"@).insert(
                        hi as int + 1,
                        item@,
                    ).insert(hi as int + 1, open_line@));
                }
            }
        }
    }
}

/// A structured, applyable modification to the configuration.
pub enum Edit {
    /// Allow the package to use the permission.
    AllowApi { pkg: String, api: String },
    /// Permit unsafe code in the package.
    AllowUnsafe { pkg: String },
    /// Permit the package to run its build script.
    AllowBuildScripts { pkg: String },
    /// Permit one `cargo:` directive from the package's build script.
    AllowBuildInstruction { pkg: String, instruction: String },
    /// Permit the package to be a proc macro.
    AllowProcMacro { pkg: String },
    /// Choose the sandbox the build scripts run under.
    SelectSandboxKind { kind: SandboxKind },
}

/// The edits proposed for a problem: policy errors each get the edit that
/// permits what was observed; a sandbox request offers every kind; the
/// rest propose nothing.
pub open spec fn fixes_spec(p: Problem) -> Seq<Edit> {
    match p {
        Problem::UsesBuildScript(b) => seq![
            Edit::AllowBuildScripts { pkg: b.pkg_id.name },
        ],
        Problem::DisallowedUnsafe(u) => seq![
            Edit::AllowUnsafe { pkg: u.crate_sel.pkg_id_spec().name },
        ],
        Problem::IsProcMacro(pkg) => seq![Edit::AllowProcMacro { pkg: pkg.name }],
        Problem::DisallowedApiUsage(d) => Seq::new(
            d.usages.entries@.len(),
            |i: int|
                Edit::AllowApi {
                    pkg: d.crate_sel.pkg_id_spec().name,
                    api: d.usages.entries@[i].0,
                },
        ),
        Problem::DisallowedBuildInstruction(d) => seq![
            Edit::AllowBuildInstruction {
                pkg: d.build_script_id.pkg_id.name,
                instruction: d.instruction,
            },
        ],
        Problem::SelectSandbox => seq![
            Edit::SelectSandboxKind { kind: SandboxKind::Disabled },
            Edit::SelectSandboxKind { kind: SandboxKind::Bubblewrap },
            Edit::SelectSandboxKind { kind: SandboxKind::Firejail },
        ],
        _ => Seq::empty(),
    }
}

/// The header line of a package's table.
pub open spec fn pkg_header_view(pkg: Seq<char>) -> Seq<char> {
    "[pkg."@ + pkg + "]"@
}

/// One quoted array item, on its own indented line.
pub open spec fn quoted_item_view(s: Seq<char>) -> Seq<char> {
    "    \""@ + s + "\","@
}

/// The name a sandbox kind is written as.
pub open spec fn sandbox_kind_view(kind: SandboxKind) -> Seq<char> {
    match kind {
        SandboxKind::Disabled => "none"@,
        SandboxKind::Bubblewrap => "bubblewrap"@,
        SandboxKind::Firejail => "firejail"@,
    }
}

/// What applying an edit does to the configuration's lines.
pub open spec fn apply_spec(edit: Edit, ls: Seq<Seq<char>>) -> Seq<Seq<char>> {
    match edit {
        Edit::AllowApi { pkg, api } => add_array_item_spec(
            ls,
            pkg_header_view(pkg@),
            "allow = ["@,
            quoted_item_view(api@),
        ),
        Edit::AllowUnsafe { pkg } => set_key_line_spec(
            ls,
            pkg_header_view(pkg@),
            "allow_unsafe"@,
            "allow_unsafe = true"@,
        ),
        Edit::AllowBuildScripts { pkg } => set_key_line_spec(
            ls,
            pkg_header_view(pkg@),
            "allow_build_scripts"@,
            "allow_build_scripts = true"@,
        ),
        Edit::AllowBuildInstruction { pkg, instruction } => add_array_item_spec(
            ls,
            pkg_header_view(pkg@),
            "allow_build_instructions = ["@,
            quoted_item_view(instruction@),
        ),
        Edit::AllowProcMacro { pkg } => set_key_line_spec(
            ls,
            pkg_header_view(pkg@),
            "allow_proc_macro"@,
            "allow_proc_macro = true"@,
        ),
        Edit::SelectSandboxKind { kind } => set_key_line_spec(
            ls,
            "[sandbox]"@,
            "kind"@,
            "kind = \""@ + sandbox_kind_view(kind) + "\""@,
        ),
    }
}

fn pkg_header(pkg: &String) -> (r: String)
    ensures
        r@ == pkg_header_view(pkg@),
{
    let mut s = String::new();
    s.append("[pkg.");
    s.append(pkg.as_str());
    s.append("]");
    proof {
        assert(s@ =~= pkg_header_view(pkg@));
    }
    s
}

fn quoted_item(item: &String) -> (r: String)
    ensures
        r@ == quoted_item_view(item@),
{
    let mut s = String::new();
    s.append("    \"");
    s.append(item.as_str());
    s.append("\",");
    proof {
        assert(s@ =~= quoted_item_view(item@));
    }
    s
}

fn literal_line(text: &str) -> (r: String)
    ensures
        r@ == text@,
{
    let mut s = String::new();
    s.append(text);
    proof {
        assert(s@ =~= text@);
    }
    s
}

/// Applies an edit to the configuration.  None of the supported edits can
/// fail; the result stands for interface compatibility with callers that
/// surface an error inline.
pub fn apply_edit(edit: &Edit, editor: &mut ConfigEditor) -> (r: Result<(), String>)
    ensures
        r is Ok,
        line_views(final(editor).lines@) == apply_spec(*edit, line_views(old(editor).lines@)),
{
    match edit {
        Edit::AllowApi { pkg, api } => {
            editor.add_array_item(pkg_header(pkg), literal_line("allow = ["), quoted_item(api));
        },
        Edit::AllowUnsafe { pkg } => {
            let key = literal_line("allow_unsafe");
            editor.set_key_line(pkg_header(pkg), &key, literal_line("allow_unsafe = true"));
        },
        Edit::AllowBuildScripts { pkg } => {
            let key = literal_line("allow_build_scripts");
            editor.set_key_line(
                pkg_header(pkg),
                &key,
                literal_line("allow_build_scripts = true"),
            );
        },
        Edit::AllowBuildInstruction { pkg, instruction } => {
            editor.add_array_item(
                pkg_header(pkg),
                literal_line("allow_build_instructions = ["),
                quoted_item(instruction),
            );
        },
        Edit::AllowProcMacro { pkg } => {
            let key = literal_line("allow_proc_macro");
            editor.set_key_line(pkg_header(pkg), &key, literal_line("allow_proc_macro = true"));
        },
        Edit::SelectSandboxKind { kind } => {
            let mut line = String::new();
            line.append("kind = \"");
            match kind {
                SandboxKind::Disabled => line.append("none"),
                SandboxKind::Bubblewrap => line.append("bubblewrap"),
                SandboxKind::Firejail => line.append("firejail"),
            }
            line.append("\"");
            proof {
                assert(line@ =~= "kind = \""@ + sandbox_kind_view(*kind) + "\""@);
            }
            let key = literal_line("kind");
            editor.set_key_line(literal_line("[sandbox]"), &key, line);
        },
    }
    Ok(())
}

/// Whether applying the edit would change nothing.
pub fn edit_is_noop(edit: &Edit, editor: &ConfigEditor) -> (r: bool)
    ensures
        r == (apply_spec(*edit, line_views(editor.lines@)) == line_views(editor.lines@)),
{
    let mut copy = editor.duplicate();
    let _ = apply_edit(edit, &mut copy);
    let same = copy.same_text(editor);
    same
}

/// A short name for the edit, shown in the problem list.
pub fn edit_title(edit: &Edit) -> (r: String)
    ensures
        match *edit {
            Edit::AllowApi { ref pkg, ref api } => r@ == "Allow `"@ + api@ + "` in `"@ + pkg@
                + "`"@,
            Edit::AllowUnsafe { ref pkg } => r@ == "Allow unsafe in `"@ + pkg@ + "`"@,
            Edit::AllowBuildScripts { ref pkg } => r@ == "Allow build script for `"@ + pkg@
                + "`"@,
            Edit::AllowBuildInstruction { ref pkg, ref instruction } => r@
                == "Allow instruction `"@ + instruction@ + "` from `"@ + pkg@ + "`"@,
            Edit::AllowProcMacro { ref pkg } => r@ == "Allow proc macro `"@ + pkg@ + "`"@,
            Edit::SelectSandboxKind { kind } => r@ == "Use sandbox `"@ + sandbox_kind_view(kind)
                + "`"@,
        },
{
    let mut s = String::new();
    match edit {
        Edit::AllowApi { pkg, api } => {
            s.append("Allow `");
            s.append(api.as_str());
            s.append("` in `");
            s.append(pkg.as_str());
            s.append("`");
            proof {
                assert(s@ =~= "Allow `"@ + edit->AllowApi_api@ + "` in `"@ + edit->AllowApi_pkg@
                    + "`"@);
            }
        },
        Edit::AllowUnsafe { pkg } => {
            s.append("Allow unsafe in `");
            s.append(pkg.as_str());
            s.append("`");
            proof {
                assert(s@ =~= "Allow unsafe in `"@ + edit->AllowUnsafe_pkg@ + "`"@);
            }
        },
        Edit::AllowBuildScripts { pkg } => {
            s.append("Allow build script for `");
            s.append(pkg.as_str());
            s.append("`");
            proof {
                assert(s@ =~= "Allow build script for `"@ + edit->AllowBuildScripts_pkg@
                    + "`"@);
            }
        },
        Edit::AllowBuildInstruction { pkg, instruction } => {
            s.append("Allow instruction `");
            s.append(instruction.as_str());
            s.append("` from `");
            s.append(pkg.as_str());
            s.append("`");
            proof {
                assert(s@ =~= "Allow instruction `"@ + edit->AllowBuildInstruction_instruction@
                    + "` from `"@ + edit->AllowBuildInstruction_pkg@ + "`"@);
            }
        },
        Edit::AllowProcMacro { pkg } => {
            s.append("Allow proc macro `");
            s.append(pkg.as_str());
            s.append("`");
            proof {
                assert(s@ =~= "Allow proc macro `"@ + edit->AllowProcMacro_pkg@ + "`"@);
            }
        },
        Edit::SelectSandboxKind { kind } => {
            s.append("Use sandbox `");
            match kind {
                SandboxKind::Disabled => s.append("none"),
                SandboxKind::Bubblewrap => s.append("bubblewrap"),
                SandboxKind::Firejail => s.append("firejail"),
            }
            s.append("`");
            proof {
                assert(s@ =~= "Use sandbox `"@ + sandbox_kind_view(edit->SelectSandboxKind_kind)
                    + "`"@);
            }
        },
    }
    s
}

/// The edits that can fix a problem.
pub fn fixes_for_problem(problem: &Problem) -> (r: Vec<Edit>)
    ensures
        r@ == fixes_spec(*problem),
{
    let mut out: Vec<Edit> = Vec::new();
    match problem {
        Problem::UsesBuildScript(b) => {
            out.push(Edit::AllowBuildScripts { pkg: b.pkg_id.name.clone() });
            proof {
                assert(out@ =~= fixes_spec(*problem));
            }
        },
        Problem::DisallowedUnsafe(u) => {
            out.push(Edit::AllowUnsafe { pkg: u.crate_sel.pkg_id().name.clone() });
            proof {
                assert(out@ =~= fixes_spec(*problem));
            }
        },
        Problem::IsProcMacro(pkg) => {
            out.push(Edit::AllowProcMacro { pkg: pkg.name.clone() });
            proof {
                assert(out@ =~= fixes_spec(*problem));
            }
        },
        Problem::DisallowedApiUsage(d) => {
            let n = d.usages.entries.len();
            let mut i: usize = 0;
            while i < n
                invariant
                    n == d.usages.entries@.len(),
                    i <= n,
                    out@ == Seq::new(
                        i as nat,
                        |k: int|
                            Edit::AllowApi {
                                pkg: d.crate_sel.pkg_id_spec().name,
                                api: d.usages.entries@[k].0,
                            },
                    ),
                decreases n - i,
            {
                out.push(
                    Edit::AllowApi {
                        pkg: d.crate_sel.pkg_id().name.clone(),
                        api: d.usages.entries[i].0.clone(),
                    },
                );
                proof {
                    assert(out@ =~= Seq::new(
                        i as nat + 1,
                        |k: int|
                            Edit::AllowApi {
                                pkg: d.crate_sel.pkg_id_spec().name,
                                api: d.usages.entries@[k].0,
                            },
                    ));
                }
                i = i + 1;
            }
            proof {
                assert(out@ =~= fixes_spec(*problem));
            }
        },
        Problem::DisallowedBuildInstruction(d) => {
            out.push(
                Edit::AllowBuildInstruction {
                    pkg: d.build_script_id.pkg_id.name.clone(),
                    instruction: d.instruction.clone(),
                },
            );
            proof {
                assert(out@ =~= fixes_spec(*problem));
            }
        },
        Problem::SelectSandbox => {
            out.push(Edit::SelectSandboxKind { kind: SandboxKind::Disabled });
            out.push(Edit::SelectSandboxKind { kind: SandboxKind::Bubblewrap });
            out.push(Edit::SelectSandboxKind { kind: SandboxKind::Firejail });
            proof {
                assert(out@ =~= fixes_spec(*problem));
            }
        },
        _ => {
            proof {
                assert(out@ =~= fixes_spec(*problem));
            }
        },
    }
    out
}

/// The follow-up problems an edit introduces once applied.  Every
/// supported edit only widens what a package is permitted, so none
/// proposes follow-ups; an edit that surfaced new information (say, a
/// newly available API after permitting unsafe) would list them here, and
/// the applying screen replaces the resolved problem by this list.
pub open spec fn replacement_spec(edit: Edit) -> Seq<Problem> {
    Seq::empty()
}

/// The follow-up problems of an edit.
pub fn replacement_problems(edit: &Edit) -> (r: crate::problem::ProblemList)
    ensures
        r.problems@ == replacement_spec(*edit),
{
    crate::problem::ProblemList::new()
}

} // verus!
