//! The configuration handed to the external script compiler: input,
//! output and include directories, exclusions, and worker threads.

use vstd::prelude::*;

use crate::tokens::push_char;

verus! {

/// The external script compiler module itself; the work it drives is
/// input/output plumbing around [`ASCConfig`].
#[derive(Debug)]
pub struct ArmaScriptCompiler;

impl ArmaScriptCompiler {
    /// The module; it carries no state of its own.
    pub fn new() -> (r: Self)
        ensures
            r == (ArmaScriptCompiler {  }),
    {
        ArmaScriptCompiler {  }
    }
}

/// Whether a character sequence holds a given character.
pub open spec fn has_char(s: Seq<char>, c: char) -> bool {
    exists|i: int| 0 <= i < s.len() && s[i] == c
}

/// A path with every forward slash turned into a backslash.
pub open spec fn backslashed(s: Seq<char>) -> Seq<char> {
    s.map_values(|c: char| if c == '/' { '\\' } else { c })
}

/// The ghost mirror of [`ASCConfig`].
pub struct ASCConfigV {
    pub input_dirs: Seq<Seq<char>>,
    pub output_dir: Seq<char>,
    pub include_dirs: Seq<Seq<char>>,
    pub exclude_list: Seq<Seq<char>>,
    pub worker_threads: int,
}

/// The ghost values of a list of strings.
pub open spec fn sseq(s: Seq<String>) -> Seq<Seq<char>> {
    s.map_values(|x: String| x@)
}

/// The compiler's configuration.
#[derive(Debug)]
pub struct ASCConfig {
    input_dirs: Vec<String>,
    output_dir: String,
    include_dirs: Vec<String>,
    exclude_list: Vec<String>,
    worker_threads: usize,
}

impl View for ASCConfig {
    type V = ASCConfigV;

    closed spec fn view(&self) -> ASCConfigV {
        ASCConfigV {
            input_dirs: sseq(self.input_dirs@),
            output_dir: self.output_dir@,
            include_dirs: sseq(self.include_dirs@),
            exclude_list: sseq(self.exclude_list@),
            worker_threads: self.worker_threads as int,
        }
    }
}

impl ASCConfig {
    /// An empty configuration with two worker threads.
    pub fn new() -> (r: Self)
        ensures
            r@ == (ASCConfigV {
                input_dirs: Seq::empty(),
                output_dir: Seq::empty(),
                include_dirs: Seq::empty(),
                exclude_list: Seq::empty(),
                worker_threads: 2,
            }),
    {
        let r = ASCConfig {
            input_dirs: Vec::new(),
            output_dir: String::new(),
            include_dirs: Vec::new(),
            exclude_list: Vec::new(),
            worker_threads: 2,
        };
        proof {
            assert(sseq(r.input_dirs@) =~= Seq::<Seq<char>>::empty());
            assert(sseq(r.include_dirs@) =~= Seq::<Seq<char>>::empty());
            assert(sseq(r.exclude_list@) =~= Seq::<Seq<char>>::empty());
        }
        r
    }

    /// Adds an input directory unless it is already listed.
    pub fn add_input_dir(&mut self, dir: String)
        ensures
            final(self)@ == (ASCConfigV {
                input_dirs: if has_char_seq(old(self)@.input_dirs, dir@) {
                    old(self)@.input_dirs
                } else {
                    old(self)@.input_dirs.push(dir@)
                },
                ..old(self)@
            }),
    {
        let n = self.input_dirs.len();
        let mut i: usize = 0;
        while i < n
            invariant
                0 <= i <= n,
                n == self.input_dirs@.len(),
                self == old(self),
                forall|j: int| 0 <= j < i ==> (#[trigger] self.input_dirs@[j]@) != dir@,
            decreases n - i,
        {
            if self.input_dirs[i] == dir {
                proof {
                    assert(self@.input_dirs[i as int] == dir@);
                }
                return ;
            }
            i += 1;
        }
        proof {
            assert(forall|j: int|
                0 <= j < self@.input_dirs.len() ==> (#[trigger] self@.input_dirs[j]) != dir@);
        }
        self.input_dirs.push(dir);
        proof {
            assert(sseq(self.input_dirs@) =~= sseq(old(self).input_dirs@).push(
                self.input_dirs@.last()@,
            ));
        }
    }

    /// Replaces the output directory.
    pub fn set_output_dir(&mut self, dir: String)
        ensures
            final(self)@ == (ASCConfigV { output_dir: dir@, ..old(self)@ }),
    {
        self.output_dir = dir;
    }

    /// Adds an include directory.
    pub fn add_include_dir(&mut self, dir: String)
        ensures
            final(self)@ == (ASCConfigV {
                include_dirs: old(self)@.include_dirs.push(dir@),
                ..old(self)@
            }),
    {
        self.include_dirs.push(dir);
        proof {
            assert(sseq(self.include_dirs@) =~= sseq(old(self).include_dirs@).push(
                self.include_dirs@.last()@,
            ));
        }
    }

    /// Adds an exclusion, with its forward slashes turned into
    /// backslashes as the compiler wants them.
    pub fn add_exclude(&mut self, dir: &str)
        ensures
            final(self)@ == (ASCConfigV {
                exclude_list: old(self)@.exclude_list.push(backslashed(dir@)),
                ..old(self)@
            }),
    {
        let n = dir.unicode_len();
        let mut s = String::new();
        let mut i: usize = 0;
        while i < n
            invariant
                0 <= i <= n,
                n == dir@.len(),
                s@ == backslashed(dir@.take(i as int)),
            decreases n - i,
        {
            let c = dir.get_char(i);
            if c == '/' {
                push_char(&mut s, '\\');
            } else {
                push_char(&mut s, c);
            }
            proof {
                assert(s@ =~= backslashed(dir@.take(i + 1)));
            }
            i += 1;
        }
        proof {
            assert(dir@.take(n as int) =~= dir@);
        }
        self.exclude_list.push(s);
        proof {
            assert(sseq(self.exclude_list@) =~= sseq(old(self).exclude_list@).push(
                self.exclude_list@.last()@,
            ));
        }
    }

    /// Sets how many worker threads the compiler may use.
    pub fn set_worker_threads(&mut self, threads: usize)
        ensures
            final(self)@ == (ASCConfigV { worker_threads: threads as int, ..old(self)@ }),
    {
        self.worker_threads = threads;
    }

    /// The input directories.
    pub fn input_dirs(&self) -> (r: &Vec<String>)
        ensures
            sseq(r@) == self@.input_dirs,
    {
        &self.input_dirs
    }

    /// The output directory.
    pub fn output_dir(&self) -> (r: &str)
        ensures
            r@ == self@.output_dir,
    {
        self.output_dir.as_str()
    }

    /// The include directories.
    pub fn include_dirs(&self) -> (r: &Vec<String>)
        ensures
            sseq(r@) == self@.include_dirs,
    {
        &self.include_dirs
    }

    /// The exclusions.
    pub fn exclude_list(&self) -> (r: &Vec<String>)
        ensures
            sseq(r@) == self@.exclude_list,
    {
        &self.exclude_list
    }

    /// The worker-thread count.
    pub fn worker_threads(&self) -> (r: usize)
        ensures
            r as int == self@.worker_threads,
    {
        self.worker_threads
    }
}

/// Whether a list of strings holds a given one.
pub open spec fn has_char_seq(s: Seq<Seq<char>>, x: Seq<char>) -> bool {
    exists|i: int| 0 <= i < s.len() && s[i] == x
}

/// Whether any exclusion holds a wildcard or a backslash, which the
/// compiler refuses; the offending messages, where one does.
pub fn check_excludes(excludes: &Vec<String>) -> (r: Option<String>)
    ensures
        (r is None) == (forall|i: int|
            0 <= i < excludes@.len() ==> !has_char(#[trigger] excludes@[i]@, '*') && !has_char(
                excludes@[i]@,
                '\\',
            )),
        r matches Some(m) ==> (m@ == "wildcards are not supported"@ || m@
            == "backslashes are not supported, use forward slashes"@),
{
    let n = excludes.len();
    let mut i: usize = 0;
    while i < n
        invariant
            0 <= i <= n,
            n == excludes@.len(),
            forall|j: int|
                0 <= j < i ==> !has_char(#[trigger] excludes@[j]@, '*') && !has_char(
                    excludes@[j]@,
                    '\\',
                ),
        decreases n - i,
    {
        let e = &excludes[i];
        let m = e.as_str().unicode_len();
        let mut k: usize = 0;
        while k < m
            invariant
                0 <= k <= m,
                m == excludes@[i as int]@.len(),
                i < n == excludes@.len(),
                e == &excludes[i as int],
                forall|j: int| 0 <= j < k ==> (#[trigger] e@[j]) != '*' && e@[j] != '\\',
            decreases m - k,
        {
            let c = e.as_str().get_char(k);
            if c == '*' {
                return Some("wildcards are not supported".to_owned());
            }
            if c == '\\' {
                return Some("backslashes are not supported, use forward slashes".to_owned());
            }
            k += 1;
        }
        i += 1;
    }
    None
}

} // verus!
