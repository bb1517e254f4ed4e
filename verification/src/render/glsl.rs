//! A registry of shader sources that resolves `#include` lines.

use crate::text::{has_suffix, lines, lines_of, push_char, strip_prefix, starts_with, trim, trimmed};
use vstd::hash_map::StringHashMap;
use vstd::prelude::*;
use vstd::string::StringExecFns;

verus! {

/// What stands at the start of a line that includes another shader.
pub open spec fn include_prefix() -> Seq<char> {
    "#include "@
}

/// What marks the version line of a shader for an embedded target.
pub open spec fn es_suffix() -> Seq<char> {
    " es"@
}

/// What follows the version line of a shader for an embedded target.
pub open spec fn es_prelude() -> Seq<char> {
    "precision mediump float;\nprecision mediump sampler2DArray;\n#define ES\n"@
}

/// The text of the shader `name` with the shaders it includes in the place
/// of the lines that include them, every line ended by a line feed.
///
/// There is none where the shader, or one that is included on the way, is
/// not registered, or where shaders are nested more than `fuel` deep.
pub open spec fn expand(shaders: Map<Seq<char>, Seq<char>>, name: Seq<char>, fuel: nat) -> Option<
    Seq<char>,
>
    decreases fuel, 0nat,
{
    if fuel == 0 || !shaders.contains_key(name) {
        None
    } else {
        expand_lines(shaders, lines_of(shaders[name]), (fuel - 1) as nat)
    }
}

/// The text that the lines of a shader stand for.
pub open spec fn expand_lines(shaders: Map<Seq<char>, Seq<char>>, lines: Seq<Seq<char>>, fuel: nat)
    -> Option<Seq<char>>
    decreases fuel, lines.len() + 1,
{
    if lines.len() == 0 {
        Some(Seq::empty())
    } else {
        match (expand_line(shaders, lines[0], fuel), expand_lines(shaders, lines.drop_first(), fuel)) {
            (Some(first), Some(rest)) => Some(first + rest),
            _ => None,
        }
    }
}

/// The text that one line of a shader stands for: the shader it names where
/// it is an include line, and otherwise the line itself.
pub open spec fn expand_line(shaders: Map<Seq<char>, Seq<char>>, line: Seq<char>, fuel: nat)
    -> Option<Seq<char>>
    decreases fuel, 1nat,
{
    if starts_with(line, include_prefix()) {
        expand(shaders, trimmed(line.skip(include_prefix().len() as int)), fuel)
    } else {
        Some(line.push('\n'))
    }
}

/// The lines that every shader starts with: the version line and, for an
/// embedded target, the precision defaults.
pub open spec fn version_lines(shader_version: Seq<char>) -> Seq<char> {
    if crate::text::ends_with(shader_version, es_suffix()) {
        shader_version.push('\n') + es_prelude()
    } else {
        shader_version.push('\n')
    }
}

pub struct Registry {
    shaders: StringHashMap<String>,
    shader_version: String,
    registered: usize,
}

impl Registry {
    /// The sources that are registered, by name.
    pub closed spec fn shaders(&self) -> Map<Seq<char>, Seq<char>> {
        self.shaders@.map_values(|source: String| source@)
    }

    /// The version line that every shader starts with.
    pub closed spec fn shader_version(&self) -> Seq<char> {
        self.shader_version@
    }

    /// How deep shaders may be nested: as deep as shaders were registered,
    /// which no chain of includes without a cycle exceeds.
    pub closed spec fn depth(&self) -> nat {
        self.registered as nat
    }

    pub fn new(shader_version: &str) -> (registry: Registry)
        ensures
            registry.shaders() == Map::<Seq<char>, Seq<char>>::empty(),
            registry.shader_version() == shader_version@,
            registry.depth() == 0,
    {
        let registry = Registry {
            shaders: StringHashMap::new(),
            shader_version: shader_version.to_owned(),
            registered: 0,
        };
        assert(registry.shaders() =~= Map::<Seq<char>, Seq<char>>::empty());
        registry
    }

    /// Whether a shader of that name is registered.
    pub fn is_registered(&self, name: &str) -> (b: bool)
        ensures
            b == self.shaders().contains_key(name@),
    {
        self.shaders.contains_key(name)
    }

    /// Registers the source of a shader, without the whitespace around it,
    /// under a name that is not taken yet.
    pub fn register(&mut self, name: &str, source: &str)
        requires
            !old(self).shaders().contains_key(name@),
        ensures
            final(self).shaders() == old(self).shaders().insert(name@, trimmed(source@)),
            final(self).shader_version() == old(self).shader_version(),
            final(self).depth() == old(self).depth() + 1 || final(self).depth() == usize::MAX,
    {
        self.shaders.insert(name.to_owned(), trim(source));
        self.registered = self.registered.saturating_add(1);
        assert(self.shaders() =~= old(self).shaders().insert(name@, trimmed(source@)));
    }

    fn add_version(&self, out: &mut String)
        ensures
            final(out)@ == old(out)@ + version_lines(self.shader_version()),
    {
        out.append(self.shader_version.as_str());
        push_char(out, '\n');
        if has_suffix(self.shader_version.as_str(), " es") {
            out.append(
                "precision mediump float;\nprecision mediump sampler2DArray;\n#define ES\n",
            );
        }
        assert(out@ =~= old(out)@ + version_lines(self.shader_version()));
    }

    /// The text of a shader, ready to compile: the version lines and then the
    /// source with its includes resolved. There is none where the shader or
    /// one of its includes is not registered, or where the includes run in a
    /// circle.
    pub fn get(&self, name: &str) -> (text: Option<String>)
        ensures
            match expand(self.shaders(), name@, self.depth()) {
                Some(body) => text matches Some(t) && t@ == version_lines(self.shader_version())
                    + body,
                None => text is None,
            },
    {
        let mut out = String::new();
        self.add_version(&mut out);
        assert(out@ =~= version_lines(self.shader_version()));
        if self.get_internal(&mut out, name, self.registered) {
            Some(out)
        } else {
            None
        }
    }

    /// The text of a shader as `get` gives it, with a `#define` line for
    /// `define` between the version lines and the source.
    pub fn get_define(&self, name: &str, define: &str) -> (text: Option<String>)
        ensures
            match expand(self.shaders(), name@, self.depth()) {
                Some(body) => text matches Some(t) && t@ == version_lines(self.shader_version())
                    + "#define "@ + define@ + seq!['\n'] + body,
                None => text is None,
            },
    {
        let mut out = String::new();
        self.add_version(&mut out);
        out.append("#define ");
        out.append(define);
        push_char(&mut out, '\n');
        assert(out@ =~= version_lines(self.shader_version()) + "#define "@ + define@ + seq!['\n']);
        if self.get_internal(&mut out, name, self.registered) {
            Some(out)
        } else {
            None
        }
    }

    fn get_internal(&self, out: &mut String, name: &str, fuel: usize) -> (found: bool)
        ensures
            match expand(self.shaders(), name@, fuel as nat) {
                Some(body) => found && final(out)@ == old(out)@ + body,
                None => !found,
            },
        decreases fuel,
    {
        if fuel == 0 {
            return false;
        }
        let src = match self.shaders.get(name) {
            Some(src) => src,
            None => {
                return false;
            },
        };
        let all = lines(src.as_str());
        let ghost wanted = lines_of(self.shaders()[name@]);
        assert(all.deep_view() == wanted);
        let ghost shaders = self.shaders();
        let ghost rest_fuel = (fuel - 1) as nat;
        let mut i: usize = 0;
        assert(wanted.skip(0) =~= wanted);
        assert(old(out)@ + Seq::<char>::empty() =~= old(out)@);
        let ghost mut done: Seq<char> = Seq::empty();
        while i < all.len()
            invariant
                i <= all.len(),
                all.deep_view() == wanted,
                shaders == self.shaders(),
                shaders.contains_key(name@),
                wanted == lines_of(shaders[name@]),
                fuel > 0,
                rest_fuel == fuel - 1,
                out@ == old(out)@ + done,
                expand_lines(shaders, wanted, rest_fuel) == (match expand_lines(
                    shaders,
                    wanted.skip(i as int),
                    rest_fuel,
                ) {
                    Some(rest) => Some(done + rest),
                    None => None,
                }),
            decreases all.len() - i,
        {
            let line = all[i].as_str();
            let ghost before = out@;
            assert(line@ == wanted[i as int]) by {
                assert(all.deep_view()[i as int] == all[i as int].deep_view());
            }
            assert(wanted.skip(i as int).drop_first() =~= wanted.skip(i + 1));
            assert(wanted.skip(i as int)[0] == wanted[i as int]);
            assert(expand_lines(shaders, wanted.skip(i as int), rest_fuel) == (match (
                expand_line(shaders, wanted[i as int], rest_fuel),
                expand_lines(shaders, wanted.skip(i + 1), rest_fuel),
            ) {
                (Some(first), Some(rest)) => Some(first + rest),
                _ => None,
            }));
            match strip_prefix(line, "#include ") {
                Some(stripped) => {
                    let inc = trim(stripped.as_str());
                    if !self.get_internal(out, inc.as_str(), fuel - 1) {
                        return false;
                    }
                },
                None => {
                    out.append(line);
                    push_char(out, '\n');
                },
            }
            proof {
                let piece = expand_line(shaders, wanted[i as int], rest_fuel)->0;
                assert(out@ =~= before + piece);
                let rest = expand_lines(shaders, wanted.skip(i + 1), rest_fuel);
                if rest is Some {
                    assert(done + (piece + rest->0) =~= (done + piece) + rest->0);
                }
                done = done + piece;
                assert(out@ =~= old(out)@ + done);
            }
            i += 1;
        }
        assert(wanted.skip(all.len() as int) =~= Seq::<Seq<char>>::empty());
        assert(done + Seq::<char>::empty() =~= done);
        true
    }
}

} // verus!
