//! Reconstructing a linker invocation: which crate is being linked, which
//! objects and rlibs go in, and where the output goes — from the argument
//! list the linker was called with.

use vstd::prelude::*;

use crate::crate_index::CrateSel;
use crate::textutil::is_prefix_of;

verus! {

/// Information about one linker invocation.
pub struct LinkInfo {
    pub crate_sel: CrateSel,
    /// The `.o` and `.rlib` arguments, in command-line order.
    pub object_paths: Vec<String>,
    /// The path following `-o`.
    pub output_file: String,
}

/// The last position of `c` in `s`, or -1.
pub open spec fn last_index_of(s: Seq<char>, c: char) -> int
    decreases s.len(),
{
    if s.len() == 0 {
        -1
    } else if s.last() == c {
        s.len() - 1
    } else {
        last_index_of(s.drop_last(), c)
    }
}

/// A path without its trailing separators, which name the same file.
pub open spec fn strip_trailing_slashes(p: Seq<char>) -> Seq<char>
    decreases p.len(),
{
    if p.len() > 0 && p.last() == '/' {
        strip_trailing_slashes(p.drop_last())
    } else {
        p
    }
}

/// The file-name part of a path: everything after the last slash.
pub open spec fn file_name_of(p: Seq<char>) -> Seq<char> {
    p.skip(last_index_of(p, '/') + 1)
}

/// The extension of a path: what follows the last dot of the file name
/// (trailing separators ignored), none when the file name has no dot or
/// starts with its only dot.
pub open spec fn extension_of(p: Seq<char>) -> Option<Seq<char>> {
    let q = strip_trailing_slashes(p);
    let f = file_name_of(q);
    let i = last_index_of(f, '.');
    if i <= 0 {
        None
    } else {
        Some(f.skip(i + 1))
    }
}

/// Cutting at the last non-slash character is what stripping does.
proof fn lemma_strip_at(p: Seq<char>, n2: int)
    requires
        0 <= n2 <= p.len(),
        forall|k: int| n2 <= k < p.len() ==> p[k] == '/',
        n2 > 0 ==> p[n2 - 1] != '/',
    ensures
        strip_trailing_slashes(p) == p.take(n2),
    decreases p.len(),
{
    if p.len() == 0 {
        assert(p.take(0) =~= p);
    } else if p.last() == '/' {
        assert(n2 < p.len());
        assert forall|k: int| n2 <= k < p.drop_last().len() implies p.drop_last()[k]
            == '/' by {
            assert(p[k] == '/');
        }
        lemma_strip_at(p.drop_last(), n2);
        assert(p.drop_last().take(n2) =~= p.take(n2));
    } else {
        assert(n2 == p.len());
        assert(p.take(n2) =~= p);
    }
}

/// Whether the path names an object file or an rlib.
pub open spec fn has_supported_extension_spec(p: Seq<char>) -> bool {
    extension_of(p) == Some(seq!['r', 'l', 'i', 'b']) || extension_of(p) == Some(seq!['o'])
}

pub proof fn lemma_last_index_props(s: Seq<char>, c: char)
    ensures
        -1 <= last_index_of(s, c) < s.len(),
        last_index_of(s, c) >= 0 ==> s[last_index_of(s, c)] == c,
        forall|k: int| last_index_of(s, c) < k < s.len() ==> s[k] != c,
    decreases s.len(),
{
    if s.len() == 0 {
    } else if s.last() == c {
    } else {
        lemma_last_index_props(s.drop_last(), c);
        assert forall|k: int| last_index_of(s, c) < k < s.len() implies s[k] != c by {
            if k < s.len() - 1 {
                assert(s.drop_last()[k] != c);
            }
        }
    }
}

pub proof fn lemma_last_index_matches(s: Seq<char>, c: char, i: int)
    requires
        -1 <= i < s.len(),
        i >= 0 ==> s[i] == c,
        forall|k: int| i < k < s.len() ==> s[k] != c,
    ensures
        last_index_of(s, c) == i,
    decreases s.len(),
{
    if s.len() == 0 {
    } else if s.last() == c {
        assert(i == s.len() - 1);
    } else {
        assert(i < s.len() - 1);
        assert forall|k: int| i < k < s.drop_last().len() implies s.drop_last()[k] != c by {
            assert(s[k] != c);
        }
        lemma_last_index_matches(s.drop_last(), c, i);
    }
}

/// Whether the path names an object file or an rlib, by its extension.
pub fn has_supported_extension(path: &String) -> (r: bool)
    ensures
        r == has_supported_extension_spec(path@),
{
    let s = path.as_str();
    let n = s.unicode_len();
    let mut n2: usize = n;
    while n2 > 0 && s.get_char(n2 - 1) == '/'
        invariant
            n == s@.len(),
            n2 <= n,
            forall|k: int| n2 <= k < n ==> s@[k] == '/',
        decreases n2,
    {
        n2 = n2 - 1;
    }
    proof {
        lemma_strip_at(s@, n2 as int);
    }
    let ghost q = s@.take(n2 as int);
    let mut has_slash = false;
    let mut has_dot = false;
    let mut last_slash: usize = 0;
    let mut last_dot: usize = 0;
    let mut i: usize = 0;
    while i < n2
        invariant
            n == s@.len(),
            n2 <= n,
            i <= n2,
            has_slash ==> last_slash < i,
            has_dot ==> last_dot < i,
            (if has_slash {
                last_slash as int
            } else {
                -1
            }) == last_index_of(s@.take(i as int), '/'),
            (if has_dot {
                last_dot as int
            } else {
                -1
            }) == last_index_of(s@.take(i as int), '.'),
        decreases n2 - i,
    {
        let c = s.get_char(i);
        proof {
            let t0 = s@.take(i as int);
            let t1 = s@.take(i + 1);
            assert(t1.drop_last() =~= t0);
            assert(t1.last() == s@[i as int]);
            let ls: int = if has_slash {
                last_slash as int
            } else {
                -1
            };
            let ld: int = if has_dot {
                last_dot as int
            } else {
                -1
            };
            if c != '/' {
                lemma_last_index_props(t0, '/');
                assert forall|k: int| ls < k < t1.len() implies t1[k] != '/' by {
                    if k < i {
                        assert(t0[k] != '/');
                    }
                }
                lemma_last_index_matches(t1, '/', ls);
            }
            if c != '.' {
                lemma_last_index_props(t0, '.');
                assert forall|k: int| ld < k < t1.len() implies t1[k] != '.' by {
                    if k < i {
                        assert(t0[k] != '.');
                    }
                }
                lemma_last_index_matches(t1, '.', ld);
            }
        }
        if c == '/' {
            has_slash = true;
            last_slash = i;
        } else if c == '.' {
            has_dot = true;
            last_dot = i;
        }
        i = i + 1;
    }
    proof {
        assert(strip_trailing_slashes(s@) == q);
        assert(q.len() == 0 || q.last() != '/');
        lemma_file_extension(
            q,
            if has_slash {
                last_slash as int
            } else {
                -1
            },
            if has_dot {
                last_dot as int
            } else {
                -1
            },
        );
    }
    if !has_dot {
        return false;
    }
    if has_slash && last_dot <= last_slash {
        return false;
    }
    if has_slash && last_dot == last_slash + 1 {
        return false;
    }
    if !has_slash && last_dot == 0 {
        return false;
    }
    let dot = last_dot;
    let ext_len = n2 - dot - 1;
    proof {
        assert(extension_of(s@) == Some(q.skip(dot + 1)));
        assert(q.skip(dot + 1) =~= s@.subrange(dot + 1, n2 as int));
    }
    if ext_len == 1 {
        let r = s.get_char(dot + 1) == 'o';
        proof {
            let e = q.skip(dot + 1);
            assert(e =~= seq![s@[dot + 1]]);
            if s@[dot + 1] == 'o' {
                assert(e =~= seq!['o']);
            } else {
                assert(e != seq!['o']) by {
                    if e == seq!['o'] {
                        assert(e[0] == 'o');
                    }
                }
                assert(e.len() != 4);
            }
        }
        return r;
    }
    if ext_len == 4 {
        let r = s.get_char(dot + 1) == 'r' && s.get_char(dot + 2) == 'l' && s.get_char(dot + 3)
            == 'i' && s.get_char(dot + 4) == 'b';
        proof {
            let e = q.skip(dot + 1);
            assert(e.len() == 4);
            assert(e[0] == s@[dot + 1] && e[1] == s@[dot + 2] && e[2] == s@[dot + 3] && e[3]
                == s@[dot + 4]);
            if r {
                assert(e =~= seq!['r', 'l', 'i', 'b']);
            } else {
                assert(e != seq!['r', 'l', 'i', 'b']) by {
                    if e == seq!['r', 'l', 'i', 'b'] {
                        assert(e[0] == 'r' && e[1] == 'l' && e[2] == 'i' && e[3] == 'b');
                    }
                }
                assert(e.len() != 1);
            }
        }
        return r;
    }
    proof {
        let e = q.skip(dot + 1);
        assert(e.len() == ext_len);
        assert(e.len() != 1 && e.len() != 4);
    }
    false
}

proof fn lemma_file_extension(p: Seq<char>, slash: int, dot: int)
    requires
        p.len() == 0 || p.last() != '/',
        slash == last_index_of(p, '/'),
        dot == last_index_of(p, '.'),
    ensures
        dot <= slash ==> extension_of(p) is None,
        dot == slash + 1 ==> extension_of(p) is None,
        dot > slash + 1 ==> extension_of(p) == Some(p.skip(dot + 1)),
{
    assert(strip_trailing_slashes(p) == p);
    lemma_last_index_props(p, '/');
    lemma_last_index_props(p, '.');
    let f = file_name_of(p);
    assert(f =~= p.skip(slash + 1));
    if dot <= slash {
        assert forall|k: int| 0 <= k < f.len() implies f[k] != '.' by {
            assert(p[slash + 1 + k] != '.');
        }
        lemma_last_index_matches(f, '.', -1);
    } else {
        assert(f[dot - slash - 1] == p[dot]);
        assert forall|k: int| dot - slash - 1 < k < f.len() implies f[k] != '.' by {
            assert(p[slash + 1 + k] != '.');
        }
        lemma_last_index_matches(f, '.', dot - slash - 1);
        if dot == slash + 1 {
        } else {
            assert(f.skip(dot - slash) =~= p.skip(dot + 1));
        }
    }
}

/// The output path of a linker command line: the argument after the first
/// `-o` that has one.
pub open spec fn output_file_of(args: Seq<Seq<char>>) -> Option<Seq<char>> {
    if exists|i: int| #![auto] 0 <= i && i + 1 < args.len() && args[i] == "-o"@ {
        let i = choose|i: int|
            #![auto]
            0 <= i && i + 1 < args.len() && args[i] == "-o"@ && forall|k: int|
                0 <= k < i ==> args[k] != "-o"@;
        Some(args[i + 1])
    } else {
        None
    }
}

impl LinkInfo {
    /// Rebuilds the link information from a linker argument list (the
    /// program name first): the object and rlib arguments in order, and the
    /// path following `-o`.  A command line with no output path is an
    /// error.
    pub fn from_args(crate_sel: CrateSel, args: &Vec<String>) -> (r: Result<LinkInfo, String>)
        ensures
            r is Ok <==> output_file_of(args@.map_values(|a: String| a@)) is Some,
            r matches Ok(info) ==> {
                &&& info.crate_sel == crate_sel
                &&& Some(info.output_file@) == output_file_of(args@.map_values(|a: String| a@))
                &&& info.object_paths@.map_values(|p: String| p@) == supported_paths(
                    args@,
                    args@.len() as int,
                )
            },
            r matches Err(e) ==> e@ == "Failed to find output file in linker command line"@,
    {
        let ghost views = args@.map_values(|a: String| a@);
        let mut objects: Vec<String> = Vec::new();
        let mut i: usize = 1;
        proof {
            assert(objects@.map_values(|p: String| p@) =~= supported_paths(args@, 1));
        }
        if args.len() == 0 {
            proof {
                assert(output_file_of(views) is None);
            }
            return Err(error_message());
        }
        while i < args.len()
            invariant
                1 <= i <= args@.len(),
                objects@.map_values(|p: String| p@) == supported_paths(args@, i as int),
            decreases args@.len() - i,
        {
            if has_supported_extension(&args[i]) {
                objects.push(args[i].clone());
                proof {
                    assert(objects@.map_values(|p: String| p@) =~= supported_paths(
                        args@,
                        i + 1,
                    ));
                }
            } else {
                proof {
                    assert(objects@.map_values(|p: String| p@) =~= supported_paths(
                        args@,
                        i + 1,
                    ));
                }
            }
            i = i + 1;
        }
        let mut j: usize = 0;
        while j < args.len()
            invariant
                j <= args@.len(),
                views == args@.map_values(|a: String| a@),
                objects@.map_values(|p: String| p@) == supported_paths(
                    args@,
                    args@.len() as int,
                ),
                forall|k: int| 0 <= k < j ==> views[k] != "-o"@,
            decreases args@.len() - j,
        {
            let is_dash_o = {
                let a = args[j].as_str();
                a.unicode_len() == 2 && a.get_char(0) == '-' && a.get_char(1) == 'o'
            };
            proof {
                reveal_strlit("-o");
                if is_dash_o {
                    assert(views[j as int] =~= "-o"@);
                } else {
                    assert(views[j as int] != "-o"@) by {
                        if views[j as int] == "-o"@ {
                            assert(views[j as int].len() == 2);
                            assert(views[j as int][0] == '-' && views[j as int][1] == 'o');
                        }
                    }
                }
            }
            if is_dash_o {
                if j + 1 < args.len() {
                    proof {
                        assert(output_file_of(views) == Some(views[j + 1])) by {
                            assert(0 <= j as int && j as int + 1 < views.len() && views[j as int]
                                == "-o"@);
                            let w = choose|w: int|
                                #![auto]
                                0 <= w && w + 1 < views.len() && views[w] == "-o"@ && forall|
                                    k: int,
                                | 0 <= k < w ==> views[k] != "-o"@;
                            assert(!(w < j as int) && !((j as int) < w));
                        }
                    }
                    return Ok(
                        LinkInfo {
                            crate_sel,
                            object_paths: objects,
                            output_file: args[j + 1].clone(),
                        },
                    );
                } else {
                    proof {
                        assert(output_file_of(views) is None) by {
                            if exists|w: int|
                                #![auto]
                                0 <= w && w + 1 < views.len() && views[w] == "-o"@ {
                                let w = choose|w: int|
                                    #![auto]
                                    0 <= w && w + 1 < views.len() && views[w] == "-o"@;
                                assert(w != j as int);
                                assert(w < j as int || w > j as int);
                                assert(views[w] != "-o"@);
                            }
                        }
                    }
                    return Err(error_message());
                }
            }
            j = j + 1;
        }
        proof {
            assert(output_file_of(views) is None) by {
                if exists|w: int| #![auto] 0 <= w && w + 1 < views.len() && views[w] == "-o"@ {
                    let w = choose|w: int|
                        #![auto]
                        0 <= w && w + 1 < views.len() && views[w] == "-o"@;
                    assert(views[w] != "-o"@);
                }
            }
        }
        Err(error_message())
    }

    /// Whether this invocation links a build script.
    pub fn is_build_script(&self) -> (r: bool)
        ensures
            r == (self.crate_sel is BuildScript),
    {
        match &self.crate_sel {
            CrateSel::BuildScript(_) => true,
            CrateSel::Primary(_) => false,
        }
    }
}

fn error_message() -> (r: String)
    ensures
        r@ == "Failed to find output file in linker command line"@,
{
    let mut s = String::new();
    s.append("Failed to find output file in linker command line");
    proof {
        assert(s@ =~= "Failed to find output file in linker command line"@);
    }
    s
}

/// The object and rlib arguments among the first `i`, skipping the program
/// name.
pub open spec fn supported_paths(args: Seq<String>, i: int) -> Seq<Seq<char>>
    decreases i,
{
    if i <= 1 {
        Seq::empty()
    } else {
        let rest = supported_paths(args, i - 1);
        if has_supported_extension_spec(args[i - 1]@) {
            rest.push(args[i - 1]@)
        } else {
            rest
        }
    }
}

/// The given paths that lie under a directory, in order.  A path lies under
/// a directory when the directory is a whole-component prefix of it.
pub open spec fn paths_under_spec(paths: Seq<Seq<char>>, dir: Seq<char>, i: int) -> Seq<
    Seq<char>,
>
    decreases i,
{
    if i <= 0 {
        Seq::empty()
    } else {
        let rest = paths_under_spec(paths, dir, i - 1);
        if path_in_dir(paths[i - 1], dir) {
            rest.push(paths[i - 1])
        } else {
            rest
        }
    }
}

/// Whole-component prefix: the directory, then either nothing or a slash.
pub open spec fn path_in_dir(p: Seq<char>, dir: Seq<char>) -> bool {
    is_prefix_of(dir, p) && (p.len() == dir.len() || p[dir.len() as int] == '/')
}

impl LinkInfo {
    /// Filters the object paths down to those under `dir`; the paths are
    /// expected to be in canonical form already.
    pub fn object_paths_under(&self, dir: &String) -> (r: Vec<String>)
        ensures
            r@.map_values(|p: String| p@) == paths_under_spec(
                self.object_paths@.map_values(|p: String| p@),
                dir@,
                self.object_paths@.len() as int,
            ),
    {
        let ghost views = self.object_paths@.map_values(|p: String| p@);
        let mut out: Vec<String> = Vec::new();
        let mut i: usize = 0;
        proof {
            assert(out@.map_values(|p: String| p@) =~= paths_under_spec(views, dir@, 0));
        }
        while i < self.object_paths.len()
            invariant
                i <= self.object_paths@.len(),
                views == self.object_paths@.map_values(|p: String| p@),
                out@.map_values(|p: String| p@) == paths_under_spec(views, dir@, i as int),
            decreases self.object_paths@.len() - i,
        {
            let p = &self.object_paths[i];
            let mut keep = crate::textutil::str_starts_with(p.as_str(), dir.as_str());
            if keep {
                let dlen = dir.as_str().unicode_len();
                let plen = p.as_str().unicode_len();
                if plen != dlen {
                    proof {
                        assert(dir@.len() < p@.len());
                    }
                    keep = p.as_str().get_char(dlen) == '/';
                }
            }
            proof {
                assert(keep == path_in_dir(p@, dir@));
            }
            if keep {
                out.push(p.clone());
                proof {
                    assert(out@.map_values(|p2: String| p2@) =~= paths_under_spec(
                        views,
                        dir@,
                        i + 1,
                    ));
                }
            } else {
                proof {
                    assert(out@.map_values(|p2: String| p2@) =~= paths_under_spec(
                        views,
                        dir@,
                        i + 1,
                    ));
                }
            }
            i = i + 1;
        }
        out
    }
}

} // verus!
