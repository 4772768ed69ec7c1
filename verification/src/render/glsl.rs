use vstd::prelude::*;
use vstd::string::*;
use crate::text::{chars_of, string_from_chars, trim, trim_chars};

verus! {

/// A line as `str::lines` yields it: a `'\r'` before the `'\n'` that ended it is dropped.
pub open spec fn strip_cr(piece: Seq<char>) -> Seq<char> {
    if piece.len() > 0 && piece.last() == '\r' { piece.drop_last() } else { piece }
}

/// The lines of `s`, scanning from index `i` with the current line begun at
/// `start`: split at `'\n'` (a `'\r'` before it dropped), the last line kept
/// as is when no `'\n'` ends it, and no empty line after a final `'\n'`.
pub open spec fn lines_scan(s: Seq<char>, start: int, i: int) -> Seq<Seq<char>>
    decreases s.len() - i,
{
    if i >= s.len() {
        if 0 <= start < s.len() { seq![s.subrange(start, s.len() as int)] } else { Seq::empty() }
    } else if s[i] == '\n' {
        seq![strip_cr(s.subrange(start, i))] + lines_scan(s, i + 1, i + 1)
    } else {
        lines_scan(s, start, i + 1)
    }
}

/// The lines of `s`, as `str::lines` gives them.
pub open spec fn lines_of(s: Seq<char>) -> Seq<Seq<char>> {
    lines_scan(s, 0, 0)
}

/// Splits characters into lines as `str::lines` does.
fn split_lines(v: &[char]) -> (r: Vec<Vec<char>>)
    ensures
        r@.map_values(|l: Vec<char>| l@) == lines_of(v@),
{
    let n = v.len();
    let mut r: Vec<Vec<char>> = Vec::new();
    let mut cur: Vec<char> = Vec::new();
    let mut start: usize = 0;
    let mut i: usize = 0;
    while i < n
        invariant
            n == v@.len(),
            start <= i <= n,
            cur@ == v@.subrange(start as int, i as int),
            lines_of(v@) == r@.map_values(|l: Vec<char>| l@) + lines_scan(v@, start as int, i as int),
        decreases n - i,
    {
        if v[i] == '\n' {
            let ghost before = r@.map_values(|l: Vec<char>| l@);
            let mut line = cur;
            let len = line.len();
            if len > 0 && line[len - 1] == '\r' {
                line.pop();
            }
            proof {
                assert(line@ =~= strip_cr(v@.subrange(start as int, i as int)));
            }
            r.push(line);
            proof {
                assert(r@.map_values(|l: Vec<char>| l@) =~= before.push(strip_cr(v@.subrange(start as int, i as int))));
                assert(before + lines_scan(v@, start as int, i as int)
                    =~= before.push(strip_cr(v@.subrange(start as int, i as int))) + lines_scan(v@, i + 1, i + 1));
            }
            cur = Vec::new();
            start = i + 1;
            proof {
                assert(cur@ =~= v@.subrange(start as int, (i + 1) as int));
            }
        } else {
            cur.push(v[i]);
            proof {
                assert(cur@ =~= v@.subrange(start as int, i + 1));
            }
        }
        i = i + 1;
    }
    if start < n {
        let ghost before = r@.map_values(|l: Vec<char>| l@);
        r.push(cur);
        proof {
            assert(r@.map_values(|l: Vec<char>| l@) =~= before + lines_scan(v@, start as int, n as int));
        }
    } else {
        proof {
            assert(lines_scan(v@, start as int, n as int) =~= Seq::<Seq<char>>::empty());
            assert(r@.map_values(|l: Vec<char>| l@) =~= r@.map_values(|l: Vec<char>| l@) + Seq::<Seq<char>>::empty());
        }
    }
    r
}

/// The prefix that marks an include line.
pub open spec fn include_prefix() -> Seq<char> {
    seq!['#', 'i', 'n', 'c', 'l', 'u', 'd', 'e', ' ']
}

/// Whether a line includes another shader.
pub open spec fn is_include(line: Seq<char>) -> bool {
    line.len() >= 9 && line.subrange(0, 9) == include_prefix()
}

/// The first source registered under `name`.
pub open spec fn lookup(shaders: Seq<(Seq<char>, Seq<char>)>, name: Seq<char>) -> Option<Seq<char>>
    decreases shaders.len(),
{
    if shaders.len() == 0 {
        None
    } else if shaders[0].0 == name {
        Some(shaders[0].1)
    } else {
        lookup(shaders.drop_first(), name)
    }
}

/// The source of shader `name` with every include line replaced by the
/// included shader, expanded in turn, and every other line ended by `'\n'`;
/// `None` when a shader is missing or includes nest deeper than `depth`.
pub open spec fn expand(shaders: Seq<(Seq<char>, Seq<char>)>, name: Seq<char>, depth: nat) -> Option<Seq<char>>
    decreases depth, 0nat,
{
    if depth == 0 {
        None
    } else {
        match lookup(shaders, name) {
            Some(src) => expand_lines(shaders, lines_of(src), (depth - 1) as nat),
            None => None,
        }
    }
}

/// The expansion of a list of lines (see `expand`).
pub open spec fn expand_lines(shaders: Seq<(Seq<char>, Seq<char>)>, lines: Seq<Seq<char>>, depth: nat) -> Option<Seq<char>>
    decreases depth, lines.len() + 1,
{
    if lines.len() == 0 {
        Some(Seq::empty())
    } else {
        let line = lines[0];
        let head = if is_include(line) {
            expand(shaders, trim(line.subrange(9, line.len() as int)), depth)
        } else {
            Some(line.push('\n'))
        };
        match (head, expand_lines(shaders, lines.drop_first(), depth)) {
            (Some(a), Some(b)) => Some(a + b),
            _ => None,
        }
    }
}

/// What precedes every shader: the version line and, for OpenGL ES, the
/// precision declarations and the `ES` define.
pub open spec fn version_header(version: Seq<char>) -> Seq<char> {
    let base = version.push('\n');
    if version.len() >= 3 && version.subrange(version.len() - 3, version.len() as int) == seq![' ', 'e', 's'] {
        base + "precision mediump float;\nprecision mediump sampler2DArray;\n#define ES\n"@
    } else {
        base
    }
}

/// A registry of named shader sources that can include one another.
pub struct Registry {
    shaders: Vec<(String, String)>,
    shader_version: String,
}

impl Registry {
    /// The registered shaders, as (name, trimmed source) pairs in order of registration.
    pub closed spec fn shaders(&self) -> Seq<(Seq<char>, Seq<char>)> {
        self.shaders@.map_values(|p: (String, String)| (p.0@, p.1@))
    }

    /// The GLSL version line the registry was created with.
    pub closed spec fn version(&self) -> Seq<char> {
        self.shader_version@
    }

    /// Whether a shader of that name is registered.
    pub open spec fn has(&self, name: Seq<char>) -> bool {
        lookup(self.shaders(), name) is Some
    }

    /// Whether the shader can be assembled: it and everything it includes
    /// exist and no include leads back to a shader that is being expanded.
    pub open spec fn expandable(&self, name: Seq<char>) -> bool {
        expand(self.shaders(), name, self.shaders().len() + 1) is Some
    }

    /// The fully expanded source of an expandable shader.
    pub open spec fn expansion(&self, name: Seq<char>) -> Seq<char> {
        expand(self.shaders(), name, self.shaders().len() + 1).unwrap()
    }

    /// An empty registry for shaders of the given GLSL version.
    pub fn new(shader_version: &str) -> (r: Registry)
        ensures
            r.shaders() == Seq::<(Seq<char>, Seq<char>)>::empty(),
            r.version() == shader_version@,
    {
        let r = Registry { shaders: Vec::new(), shader_version: shader_version.to_owned() };
        proof {
            assert(r.shaders() =~= Seq::<(Seq<char>, Seq<char>)>::empty());
        }
        r
    }

    /// Registers a shader under a new name, with its source trimmed.
    pub fn register(&mut self, name: &str, source: &str)
        requires
            !old(self).has(name@),
        ensures
            final(self).shaders() == old(self).shaders().push((name@, trim(source@))),
            final(self).version() == old(self).version(),
    {
        let chars = chars_of(source);
        let trimmed = trim_chars(chars.as_slice(), 0, chars.len());
        proof {
            assert(chars@.subrange(0, chars@.len() as int) =~= source@);
        }
        let src = string_from_chars(trimmed.as_slice());
        self.shaders.push((name.to_owned(), src));
        proof {
            assert(self.shaders() =~= old(self).shaders().push((name@, trim(source@))));
        }
    }

    fn add_version(&self, out: &mut String)
        ensures
            final(out)@ == old(out)@ + version_header(self.version()),
    {
        out.append(self.shader_version.as_str());
        out.append("\n");
        proof {
            reveal_strlit("\n");
        }
        let v = chars_of(self.shader_version.as_str());
        let n = v.len();
        if n >= 3 && v[n - 3] == ' ' && v[n - 2] == 'e' && v[n - 1] == 's' {
            proof {
                assert(self.version().subrange(n - 3, n as int) =~= seq![' ', 'e', 's']);
            }
            out.append("precision mediump float;\nprecision mediump sampler2DArray;\n#define ES\n");
        } else {
            proof {
                if n >= 3 {
                    assert(self.version().subrange(n - 3, n as int)[0] == v@[n - 3]);
                    assert(self.version().subrange(n - 3, n as int)[1] == v@[n - 2]);
                    assert(self.version().subrange(n - 3, n as int)[2] == v@[n - 1]);
                }
            }
        }
        proof {
            assert(final(out)@ =~= old(out)@ + version_header(self.version()));
        }
    }

    /// The source of an expandable shader, preceded by the version header.
    pub fn get(&self, name: &str) -> (s: String)
        requires
            self.expandable(name@),
        ensures
            s@ == version_header(self.version()) + self.expansion(name@),
    {
        let mut out = String::new();
        self.add_version(&mut out);
        self.get_internal(&mut out, name, Ghost((self.shaders().len() + 1) as nat));
        proof {
            assert(out@ =~= version_header(self.version()) + self.expansion(name@));
        }
        out
    }

    /// As `get`, with `#define <define>` after the version header.
    pub fn get_define(&self, name: &str, define: &str) -> (s: String)
        requires
            self.expandable(name@),
        ensures
            s@ == version_header(self.version()) + "#define "@ + define@ + "\n"@ + self.expansion(name@),
    {
        let mut out = String::new();
        self.add_version(&mut out);
        out.append("#define ");
        out.append(define);
        out.append("\n");
        self.get_internal(&mut out, name, Ghost((self.shaders().len() + 1) as nat));
        proof {
            assert(out@ =~= version_header(self.version()) + "#define "@ + define@ + "\n"@ + self.expansion(name@));
        }
        out
    }

    fn find(&self, name: &str) -> (i: usize)
        requires
            self.has(name@),
        ensures
            i < self.shaders@.len(),
            lookup(self.shaders(), name@) == Some(self.shaders@[i as int].1@),
    {
        let mut i: usize = 0;
        proof {
            assert(self.shaders().subrange(0, self.shaders().len() as int) =~= self.shaders());
        }
        while i < self.shaders.len()
            invariant
                i <= self.shaders@.len(),
                lookup(self.shaders(), name@) == lookup(self.shaders().subrange(i as int, self.shaders().len() as int), name@),
            decreases self.shaders@.len() - i,
        {
            let ghost sub = self.shaders().subrange(i as int, self.shaders().len() as int);
            if string_eq(&self.shaders[i].0, name) {
                proof {
                    assert(sub[0] == (self.shaders@[i as int].0@, self.shaders@[i as int].1@));
                }
                return i;
            }
            proof {
                assert(sub.drop_first() =~= self.shaders().subrange(i + 1, self.shaders().len() as int));
            }
            i = i + 1;
        }
        proof {
            assert(self.shaders().subrange(i as int, self.shaders().len() as int) =~= Seq::<(Seq<char>, Seq<char>)>::empty());
        }
        0
    }

    fn get_internal(&self, out: &mut String, name: &str, Ghost(depth): Ghost<nat>)
        requires
            expand(self.shaders(), name@, depth) is Some,
        ensures
            final(out)@ == old(out)@ + expand(self.shaders(), name@, depth).unwrap(),
        decreases depth, 1nat,
    {
        let idx = self.find(name);
        let src = chars_of(self.shaders[idx].1.as_str());
        let lines = split_lines(src.as_slice());
        let ghost sh = self.shaders();
        let ghost ls = lines@.map_values(|l: Vec<char>| l@);
        let ghost d = (depth - 1) as nat;
        proof {
            assert(ls.subrange(0, ls.len() as int) =~= ls);
            assert(appended_part(out@, out@) =~= Seq::<char>::empty());
        }
        let mut k: usize = 0;
        while k < lines.len()
            invariant
                depth > 0,
                d == depth - 1,
                sh == self.shaders(),
                ls == lines@.map_values(|l: Vec<char>| l@),
                ls == lines_of(self.shaders@[idx as int].1@),
                expand(sh, name@, depth) == expand_lines(sh, ls, d),
                k <= lines@.len(),
                expand_lines(sh, ls.subrange(k as int, ls.len() as int), d) is Some,
                expand_lines(sh, ls, d) == Some(appended_part(out@, old(out)@)
                    + expand_lines(sh, ls.subrange(k as int, ls.len() as int), d).unwrap()),
                out@.len() >= old(out)@.len(),
                out@.subrange(0, old(out)@.len() as int) == old(out)@,
            decreases lines@.len() - k,
        {
            let ghost rest_lines = ls.subrange(k as int, ls.len() as int);
            proof {
                assert(rest_lines[0] == lines@[k as int]@);
                assert(rest_lines.drop_first() =~= ls.subrange(k + 1, ls.len() as int));
            }
            let line = &lines[k];
            let ghost out_before = out@;
            let len = line.len();
            if len >= 9 && line[0] == '#' && line[1] == 'i' && line[2] == 'n' && line[3] == 'c'
                && line[4] == 'l' && line[5] == 'u' && line[6] == 'd' && line[7] == 'e' && line[8] == ' ' {
                proof {
                    assert(line@.subrange(0, 9) =~= include_prefix());
                }
                let inc = trim_chars(line.as_slice(), 9, len);
                let inc_str = string_from_chars(inc.as_slice());
                self.get_internal(out, inc_str.as_str(), Ghost(d));
            } else {
                proof {
                    if line@.len() >= 9 {
                        assert(line@.subrange(0, 9) != include_prefix()) by {
                            if line@.subrange(0, 9) == include_prefix() {
                                assert(line@.subrange(0, 9)[0] == line@[0]);
                                assert(line@.subrange(0, 9)[1] == line@[1]);
                                assert(line@.subrange(0, 9)[2] == line@[2]);
                                assert(line@.subrange(0, 9)[3] == line@[3]);
                                assert(line@.subrange(0, 9)[4] == line@[4]);
                                assert(line@.subrange(0, 9)[5] == line@[5]);
                                assert(line@.subrange(0, 9)[6] == line@[6]);
                                assert(line@.subrange(0, 9)[7] == line@[7]);
                                assert(line@.subrange(0, 9)[8] == line@[8]);
                            }
                        }
                    }
                }
                let mut piece: Vec<char> = Vec::new();
                let mut m: usize = 0;
                while m < len
                    invariant
                        len == line@.len(),
                        m <= len,
                        piece@ == line@.subrange(0, m as int),
                    decreases len - m,
                {
                    piece.push(line[m]);
                    proof {
                        assert(piece@ =~= line@.subrange(0, m + 1));
                    }
                    m = m + 1;
                }
                piece.push('\n');
                proof {
                    assert(piece@ =~= line@.push('\n'));
                }
                let s = string_from_chars(piece.as_slice());
                out.append(s.as_str());
            }
            proof {
                let head = appended_part(out@, out_before);
                assert(out@ =~= out_before + head);
                assert(appended_part(out@, old(out)@) =~= appended_part(out_before, old(out)@) + head);
                assert(out@.subrange(0, old(out)@.len() as int) =~= old(out)@);
            }
            k = k + 1;
        }
        proof {
            assert(ls.subrange(ls.len() as int, ls.len() as int) =~= Seq::<Seq<char>>::empty());
            assert(out@ =~= old(out)@ + appended_part(out@, old(out)@));
        }
    }
}

/// What has been appended to `start` to make `now`.
pub open spec fn appended_part(now: Seq<char>, start: Seq<char>) -> Seq<char> {
    now.subrange(start.len() as int, now.len() as int)
}

/// Whether a string equals a string slice.
fn string_eq(a: &String, b: &str) -> (r: bool)
    ensures
        r == (a@ == b@),
{
    let x = chars_of(a.as_str());
    let y = chars_of(b);
    if x.len() != y.len() {
        return false;
    }
    let mut i: usize = 0;
    while i < x.len()
        invariant
            x@ == a@,
            y@ == b@,
            x@.len() == y@.len(),
            i <= x@.len(),
            forall|k: int| 0 <= k < i ==> x@[k] == y@[k],
        decreases x@.len() - i,
    {
        if x[i] != y[i] {
            return false;
        }
        i = i + 1;
    }
    proof {
        assert(x@ =~= y@);
    }
    true
}

} // verus!
