use vstd::prelude::*;

use crate::outside;

verus! {

/// The machine that the program runs on, as far as paths go: what separates their parts.
#[derive(Clone, Copy, Debug)]
pub struct Host {
    separator: char,
}

impl View for Host {
    type V = char;

    closed spec fn view(&self) -> char {
        self.separator
    }
}

impl Host {
    /// This machine. There is no other way to a `Host`.
    pub fn current() -> Host {
        Host { separator: outside::main_separator() }
    }

    /// What separates the parts of a path.
    pub fn separator(&self) -> (c: char)
        ensures
            c == self@,
    {
        self.separator
    }
}

/// `part` adjoined to the path `base`, on a machine with this separator. Where that is `/`, a
/// part that starts with it replaces the path, and any other part follows it behind one
/// separator. Elsewhere paths have drives and roots of their own, and the rules are those of
/// the standard library.
pub open spec fn joined(separator: char, base: Seq<char>, part: Seq<char>) -> Seq<char> {
    if separator != '/' {
        outside::joined_elsewhere(separator, base, part)
    } else if part.len() > 0 && part[0] == '/' {
        part
    } else if base.len() == 0 || base.last() == '/' {
        base + part
    } else {
        base.push('/') + part
    }
}

/// Adjoins `part` to the path `base`.
pub fn join(host: Host, base: &str, part: &str) -> (path: String)
    ensures
        path@ == joined(host@, base@, part@),
{
    if host.separator != '/' {
        return outside::join_elsewhere(host, base, part);
    }
    if !part.is_empty() && part.get_char(0) == '/' {
        return part.to_string();
    }
    let mut path = base.to_string();
    if !base.is_empty() && base.get_char(base.unicode_len() - 1) != '/' {
        path.push('/');
    }
    path.append(part);
    path
}

/// A part that starts with `/` replaces the path. Any other part ends the path that comes out,
/// which starts with the base; between them stands one `/` exactly where the base is not empty
/// and does not end in one. On machines with another separator, the path is what the standard
/// library makes of it.
pub proof fn law_join(separator: char, base: Seq<char>, part: Seq<char>)
    ensures
        separator == '/' && part.len() > 0 && part[0] == '/' ==> joined(separator, base, part)
            == part,
        separator == '/' && !(part.len() > 0 && part[0] == '/') ==> {
            let path = joined(separator, base, part);
            let gap = path.len() - base.len() - part.len();
            &&& gap == 0 || gap == 1
            &&& gap == 1 <==> base.len() > 0 && base[base.len() - 1] != '/'
            &&& path.take(base.len() as int) == base
            &&& path.skip(base.len() + gap) == part
            &&& gap == 1 ==> path[base.len() as int] == '/'
        },
        separator != '/' ==> joined(separator, base, part) == outside::joined_elsewhere(
            separator,
            base,
            part,
        ),
{
}

} // verus!
