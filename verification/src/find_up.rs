//! Finding a file or directory by walking up parent directories: the
//! configuration of such a search and its per-step decisions. The walk
//! itself reads the file system and lives with the caller; it asks these
//! functions when to stop and which entries count as matches.

use vstd::prelude::*;

use crate::utils::str_eq;

verus! {

/// The type of paths that can be matched.
#[derive(PartialEq, Eq, Structural, Debug, Clone, Copy)]
pub enum Type {
    /// Match file types only.
    File,
    /// Match directories only.
    Directory,
}

impl Default for Type {
    /// Files are matched by default.
    fn default() -> (r: Type)
        ensures
            r == Type::File,
    {
        Type::File
    }
}

/// The configuration of one upward search.
#[derive(Debug)]
pub struct FindUp {
    /// The type of paths that can be matched.
    pub path_type: Type,
    /// Disable matching symbolic links.
    pub disable_symlinks: bool,
    /// The directory at which the search stops.
    pub stop_at: String,
    /// The minimum number of steps to take before searching.
    pub min_steps: usize,
    /// The maximum number of steps to take.
    pub max_steps: usize,
}

impl PartialEq for FindUp {
    /// Two configurations are equal when every setting agrees.
    fn eq(&self, other: &Self) -> (r: bool) {
        self.path_type == other.path_type && self.disable_symlinks == other.disable_symlinks
            && str_eq(self.stop_at.as_str(), other.stop_at.as_str()) && self.min_steps
            == other.min_steps && self.max_steps == other.max_steps
    }
}

impl vstd::std_specs::cmp::PartialEqSpecImpl for FindUp {
    open spec fn obeys_eq_spec() -> bool {
        true
    }

    open spec fn eq_spec(&self, other: &Self) -> bool {
        &&& self.path_type == other.path_type
        &&& self.disable_symlinks == other.disable_symlinks
        &&& self.stop_at@ == other.stop_at@
        &&& self.min_steps == other.min_steps
        &&& self.max_steps == other.max_steps
    }
}

/// A builder for [`FindUp`], starting from the defaults: match files, keep
/// symbolic links, stop at the root, and take any number of steps.
pub struct FindUpBuilder {
    /// The type of paths that can be matched.
    pub path_type: Type,
    /// Disable matching symbolic links.
    pub disable_symlinks: bool,
    /// The directory at which the search stops.
    pub stop_at: String,
    /// The minimum number of steps to take before searching.
    pub min_steps: usize,
    /// The maximum number of steps to take.
    pub max_steps: usize,
}

impl FindUpBuilder {
    /// Choose the type of paths to match.
    pub fn path_type(self, path_type: Type) -> (r: Self)
        ensures
            r.path_type == path_type,
            r.disable_symlinks == self.disable_symlinks,
            r.stop_at@ == self.stop_at@,
            r.min_steps == self.min_steps,
            r.max_steps == self.max_steps,
    {
        FindUpBuilder { path_type, ..self }
    }

    /// Disable matching symbolic links.
    pub fn disable_symlinks(self) -> (r: Self)
        ensures
            r.path_type == self.path_type,
            r.disable_symlinks == true,
            r.stop_at@ == self.stop_at@,
            r.min_steps == self.min_steps,
            r.max_steps == self.max_steps,
    {
        FindUpBuilder { disable_symlinks: true, ..self }
    }

    /// Stop the search at the given directory.
    pub fn stop_at(self, stop_at: &str) -> (r: Self)
        ensures
            r.path_type == self.path_type,
            r.disable_symlinks == self.disable_symlinks,
            r.stop_at@ == stop_at@,
            r.min_steps == self.min_steps,
            r.max_steps == self.max_steps,
    {
        FindUpBuilder { stop_at: String::from_str(stop_at), ..self }
    }

    /// Take at least this many steps before searching.
    pub fn min_steps(self, min_steps: usize) -> (r: Self)
        ensures
            r.min_steps == min_steps,
            r.path_type == self.path_type,
            r.disable_symlinks == self.disable_symlinks,
            r.stop_at@ == self.stop_at@,
            r.max_steps == self.max_steps,
    {
        FindUpBuilder { min_steps, ..self }
    }

    /// Take at most this many steps.
    pub fn max_steps(self, max_steps: usize) -> (r: Self)
        ensures
            r.max_steps == max_steps,
            r.path_type == self.path_type,
            r.disable_symlinks == self.disable_symlinks,
            r.stop_at@ == self.stop_at@,
            r.min_steps == self.min_steps,
    {
        FindUpBuilder { max_steps, ..self }
    }

    /// Finish the configuration.
    pub fn build(self) -> (r: FindUp)
        ensures
            r.path_type == self.path_type,
            r.disable_symlinks == self.disable_symlinks,
            r.stop_at@ == self.stop_at@,
            r.min_steps == self.min_steps,
            r.max_steps == self.max_steps,
    {
        FindUp {
            path_type: self.path_type,
            disable_symlinks: self.disable_symlinks,
            stop_at: self.stop_at,
            min_steps: self.min_steps,
            max_steps: self.max_steps,
        }
    }
}

/// Whether `inner` is `outer` itself or stands somewhere below it, going
/// by path components.
pub open spec fn spec_path_starts_with(inner: Seq<char>, outer: Seq<char>) -> bool {
    ||| inner == outer
    ||| (inner.len() > outer.len() && inner.take(outer.len() as int) == outer && inner[outer.len() as int]
        == '/')
    ||| (outer == "/"@ && inner.len() > 0 && inner[0] == '/')
}

/// Check whether `inner` lies at or below `outer`.
#[verifier::loop_isolation(false)]
pub fn path_starts_with(inner: &str, outer: &str) -> (r: bool)
    ensures
        r == spec_path_starts_with(inner@, outer@),
{
    proof {
        reveal_strlit("/");
    }
    let ni = inner.unicode_len();
    let no = outer.unicode_len();
    if str_eq(inner, outer) {
        return true;
    }
    if no == 1 && outer.get_char(0) == '/' && ni > 0 && inner.get_char(0) == '/' {
        proof {
            assert(outer@ =~= "/"@);
        }
        return true;
    }
    if ni > no {
        let head = inner.substring_char(0, no);
        if str_eq(head, outer) && inner.get_char(no) == '/' {
            proof {
                assert(head@ =~= inner@.take(no as int));
            }
            return true;
        }
        proof {
            assert(head@ =~= inner@.take(no as int));
            if outer@ == "/"@ {
                assert(outer@.len() == 1);
            }
        }
        return false;
    }
    proof {
        if outer@ == "/"@ {
            assert(outer@.len() == 1);
        }
    }
    false
}

impl FindUp {
    /// Whether the walk must stop at this directory before reading it:
    /// at the configured stop directory, below it, or at the root.
    pub fn should_stop(&self, dir: &str) -> (r: bool)
        ensures
            r == (dir@ == self.stop_at@ || spec_path_starts_with(self.stop_at@, dir@) || dir@
                == "/"@),
    {
        proof {
            reveal_strlit("/");
        }
        if str_eq(dir, self.stop_at.as_str()) {
            return true;
        }
        if path_starts_with(self.stop_at.as_str(), dir) {
            return true;
        }
        let n = dir.unicode_len();
        if n == 1 && dir.get_char(0) == '/' {
            proof {
                assert(dir@ =~= "/"@);
            }
            return true;
        }
        proof {
            if dir@ == "/"@ {
                assert(dir@.len() == 1);
            }
        }
        false
    }

    /// Whether a directory entry counts as a match: its kind agrees with
    /// the configured type, symbolic links are allowed or it is none, and
    /// its name is one of the sought names.
    pub fn entry_matches(
        &self,
        name: &str,
        is_dir: bool,
        is_file: bool,
        is_symlink: bool,
        names: &Vec<String>,
    ) -> (r: bool)
        ensures
            r == (!(self.disable_symlinks && is_symlink) && (match self.path_type {
                Type::File => !is_dir,
                Type::Directory => !is_file,
            }) && crate::utils::views_of_strings(names@).contains(name@)),
    {
        if self.disable_symlinks && is_symlink {
            return false;
        }
        let kind_ok = match self.path_type {
            Type::File => !is_dir,
            Type::Directory => !is_file,
        };
        if !kind_ok {
            return false;
        }
        crate::utils::contains_string(names, name)
    }

    /// Begin building a search configuration.
    pub fn builder() -> (r: FindUpBuilder)
        ensures
            r.path_type == Type::File,
            r.disable_symlinks == false,
            r.stop_at@ == "/"@,
            r.min_steps == 0,
            r.max_steps == usize::MAX,
    {
        FindUpBuilder {
            path_type: Type::File,
            disable_symlinks: false,
            stop_at: String::from_str("/"),
            min_steps: 0,
            max_steps: usize::MAX,
        }
    }
}

} // verus!
