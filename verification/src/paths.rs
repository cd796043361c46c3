//! Paths as text, by the conventions of the platform.
//!
//! A path of Windows may start with a prefix: a drive (`C:`), a server and a share
//! (`\\server\share`), a device (`\\.\COM1`), or one that is verbatim (`\\?\C:`,
//! `\\?\UNC\server\share`, `\\?\name`). Behind a verbatim prefix a slash and a point
//! have no meaning of their own.
use crate::text::{
    behind_last, chars_of, first_place, joined, lemma_behind_last, lemma_first_place,
    lemma_first_place_bounds, slice_of, text_views,
};
use vstd::prelude::*;

verus! {

/// Whose conventions paths and program names follow.
#[derive(Clone, Copy, PartialEq, Eq, Structural, Debug)]
pub enum Platform {
    Unix,
    Windows,
}

/// The position of the last point in `s`, if there is one.
pub open spec fn last_point(s: Seq<char>) -> Option<int>
    decreases s.len(),
{
    if s.len() == 0 {
        None
    } else if s.last() == '.' {
        Some(s.len() - 1)
    } else {
        last_point(s.drop_last())
    }
}

/// A file name without its extension: what stands before the last point, unless
/// that is nothing.
pub open spec fn stem_of(name: Seq<char>) -> Seq<char> {
    match last_point(name) {
        Some(p) => if p == 0 {
            name
        } else {
            name.take(p)
        },
        None => name,
    }
}

/// Whether `c` is an ASCII letter.
pub open spec fn letter(c: char) -> bool {
    'a' <= c <= 'z' || 'A' <= c <= 'Z'
}

/// The parts of `s` between the characters that satisfy `stop`, without the empty
/// ones.
pub open spec fn parts_of(s: Seq<char>, stop: spec_fn(char) -> bool) -> Seq<Seq<char>>
    decreases s.len(),
{
    if s.len() == 0 {
        seq![]
    } else if stop(s.last()) {
        parts_of(s.drop_last(), stop)
    } else {
        proof {
            lemma_behind_last_len(s, stop);
        }
        let part = behind_last(s, stop);
        parts_of(s.take(s.len() - part.len()), stop).push(part)
    }
}

/// What stands behind the last stop is no longer than the text.
pub proof fn lemma_behind_last_len(s: Seq<char>, stop: spec_fn(char) -> bool)
    ensures
        behind_last(s, stop).len() <= s.len(),
    decreases s.len(),
{
    if s.len() > 0 && !stop(s.last()) {
        lemma_behind_last_len(s.drop_last(), stop);
    }
}

/// Where `part` leads to from the directory with the parts `dir`: a point leads
/// nowhere, two points to the parent, and a name into the directory.
pub open spec fn followed(dir: Seq<Seq<char>>, part: Seq<char>) -> Seq<Seq<char>> {
    if part == seq!['.'] {
        dir
    } else if part == seq!['.', '.'] {
        if dir.len() > 0 && dir.last() != seq!['.'] && dir.last() != seq!['.', '.'] {
            dir.drop_last()
        } else {
            dir
        }
    } else {
        dir.push(part)
    }
}

/// Where `parts` lead to, one behind the other, from the directory with the parts
/// `dir`.
pub open spec fn walked(dir: Seq<Seq<char>>, parts: Seq<Seq<char>>) -> Seq<Seq<char>>
    decreases parts.len(),
{
    if parts.len() == 0 {
        dir
    } else {
        followed(walked(dir, parts.drop_last()), parts.last())
    }
}

/// The parts, with a backslash in front of each.
pub open spec fn backslashed(parts: Seq<Seq<char>>) -> Seq<char>
    decreases parts.len(),
{
    if parts.len() == 0 {
        seq![]
    } else {
        backslashed(parts.drop_last()) + "\\"@ + parts.last()
    }
}

impl Platform {
    /// Whether `c` separates the parts of a path.
    pub open spec fn separates(self, c: char) -> bool {
        c == '/' || (self is Windows && c == '\\')
    }

    /// What is put between two parts of a path.
    pub open spec fn separator_of(self) -> Seq<char> {
        match self {
            Platform::Unix => "/"@,
            Platform::Windows => "\\"@,
        }
    }

    /// Whether `s` starts with a drive, a letter and a colon.
    pub open spec fn has_drive(self, s: Seq<char>) -> bool {
        self is Windows && s.len() >= 2 && s[1] == ':' && letter(s[0])
    }

    /// Whether the path `s` starts with a separator.
    pub open spec fn rooted(self, s: Seq<char>) -> bool {
        s.len() > 0 && self.separates(s[0])
    }

    /// Whether `s` is verbatim: it starts with two backslashes, a question mark and
    /// a backslash.
    pub open spec fn verbatim(self, s: Seq<char>) -> bool {
        self is Windows && s.len() >= 4 && s[0] == '\\' && s[1] == '\\' && s[2] == '?' && s[3]
            == '\\'
    }

    /// Whether `c` separates the parts of a path that is verbatim or not.
    pub open spec fn splits(self, verbatim: bool, c: char) -> bool {
        if verbatim {
            c == '\\'
        } else {
            self.separates(c)
        }
    }

    /// Where the part of `s` that starts at `from` ends.
    pub open spec fn part_end(self, verbatim: bool, s: Seq<char>, from: int) -> int {
        from + first_place(s.skip(from), |c: char| self.splits(verbatim, c))
    }

    /// Where the server and the share of `s` end, if the server starts at `from`;
    /// where the server ends if there is no share.
    pub open spec fn share_end(self, verbatim: bool, s: Seq<char>, from: int) -> int {
        let server = self.part_end(verbatim, s, from);
        if server < s.len() && self.part_end(verbatim, s, server + 1) > server + 1 {
            self.part_end(verbatim, s, server + 1)
        } else {
            server
        }
    }

    /// Whether the verbatim path `s` goes on with `UNC` and a separator, behind which
    /// a server is named.
    pub open spec fn names_server(self, s: Seq<char>) -> bool {
        s.len() >= 8 && s[4] == 'U' && s[5] == 'N' && s[6] == 'C' && self.separates(s[7])
    }

    /// How long the prefix of the path `s` is; zero if it has none.
    pub open spec fn prefix_len(self, s: Seq<char>) -> int {
        if self.has_drive(s) {
            2
        } else if !(self is Windows && s.len() >= 2 && self.separates(s[0]) && self.separates(
            s[1],
        )) {
            0
        } else if self.verbatim(s) {
            if self.names_server(s) {
                self.share_end(true, s, 8)
            } else if s.len() >= 6 && letter(s[4]) && s[5] == ':' && (s.len() == 6
                || self.separates(s[6])) {
                6
            } else {
                self.part_end(true, s, 4)
            }
        } else if s.len() >= 4 && s[2] == '.' && self.separates(s[3]) {
            self.part_end(false, s, 4)
        } else {
            let server = self.part_end(false, s, 2);
            let share = self.share_end(false, s, 2);
            if server > 2 && share > server {
                share
            } else {
                0
            }
        }
    }

    /// Whether the path `s` does not depend on the current directory: on Windows it
    /// has a prefix, and a separator behind it if that is a drive.
    pub open spec fn absolute(self, s: Seq<char>) -> bool {
        match self {
            Platform::Unix => self.rooted(s),
            Platform::Windows => self.prefix_len(s) > 0 && (self.has_drive(s) ==> s.len() >= 3
                && self.separates(s[2])),
        }
    }

    /// Where the parts of the path `s` start: behind its prefix and the separator
    /// that follows it.
    pub open spec fn body_start(self, s: Seq<char>) -> int {
        let prefix = self.prefix_len(s);
        if prefix < s.len() && self.separates(s[prefix]) {
            prefix + 1
        } else {
            prefix
        }
    }

    /// The path `s` from its first part on.
    pub open spec fn body_of(self, s: Seq<char>) -> Seq<char> {
        s.skip(self.body_start(s))
    }

    /// `name` in the directory `base`.
    ///
    /// A name with a prefix of its own, and on Unix one with a root, stands alone;
    /// on Windows one with a root keeps the prefix of the directory. Any other is
    /// put behind the directory with one separator between the two, where none is
    /// added to nothing, behind another, or behind a bare drive. A verbatim
    /// directory is put together anew from its parts and those that the name leads
    /// to.
    pub open spec fn join_of(self, base: Seq<char>, name: Seq<char>) -> Seq<char> {
        if (self is Unix && self.rooted(name)) || self.prefix_len(name) > 0 {
            name
        } else if self.verbatim(base) && name.len() > 0 {
            self.verbatim_join_of(base, name)
        } else if self.rooted(name) {
            base.take(self.prefix_len(base)) + name
        } else if base.len() == 0 || self.separates(base.last()) || (self.has_drive(base)
            && base.len() == 2) {
            base + name
        } else {
            base + self.separator_of() + name
        }
    }

    /// The parts of the verbatim path `base`, or none where `name` starts at the
    /// root, and those that `name` leads to.
    pub open spec fn verbatim_parts(self, base: Seq<char>, name: Seq<char>) -> Seq<Seq<char>> {
        walked(
            if self.rooted(name) {
                seq![]
            } else {
                parts_of(self.body_of(base), |c: char| self.splits(true, c))
            },
            parts_of(name, |c: char| self.splits(false, c)),
        )
    }

    /// `name` in the verbatim directory `base`.
    pub open spec fn verbatim_join_of(self, base: Seq<char>, name: Seq<char>) -> Seq<char> {
        let parts = self.verbatim_parts(base, name);
        base.take(self.prefix_len(base)) + if parts.len() > 0 {
            backslashed(parts)
        } else if self.rooted(name) || self.body_start(base) > self.prefix_len(base) {
            "\\"@
        } else {
            ""@
        }
    }

    /// The path `s` without the separators at its end, and without single points
    /// there if it is not verbatim.
    pub open spec fn core_of(self, verbatim: bool, s: Seq<char>) -> Seq<char>
        decreases s.len(),
    {
        if s.len() > 0 && (self.splits(verbatim, s.last()) || (!verbatim && self.last_part(
            verbatim,
            s,
        ) == seq!['.'])) {
            self.core_of(verbatim, s.drop_last())
        } else {
            s
        }
    }

    /// The last part of the path `s`, which has no prefix, and ends with it.
    pub open spec fn last_part(self, verbatim: bool, s: Seq<char>) -> Seq<char> {
        behind_last(s, |c: char| self.splits(verbatim, c))
    }

    /// The file name of the path `s`: its last part, unless that leads here or to
    /// the parent directory.
    pub open spec fn file_name_of(self, s: Seq<char>) -> Option<Seq<char>> {
        let name = self.last_part(
            self.verbatim(s),
            self.core_of(self.verbatim(s), self.body_of(s)),
        );
        if name.len() == 0 || name == seq!['.'] || name == seq!['.', '.'] {
            None
        } else {
            Some(name)
        }
    }

    /// The file name of the path `s` without its extension.
    pub open spec fn file_stem_of(self, s: Seq<char>) -> Option<Seq<char>> {
        match self.file_name_of(s) {
            Some(name) => Some(stem_of(name)),
            None => None,
        }
    }

    /// The path `s` with `ext` for the extension of its file name; `s` itself if
    /// it has no file name.
    pub open spec fn with_extension_of(self, s: Seq<char>, ext: Seq<char>) -> Seq<char> {
        match self.file_name_of(s) {
            Some(name) => s.take(
                self.body_start(s) + self.core_of(self.verbatim(s), self.body_of(s)).len()
                    - name.len() + stem_of(name).len(),
            ) + "."@ + ext,
            None => s,
        }
    }

    /// The directory that the absolute path `s` stands in: `s` without its last part
    /// and what is cut off behind the one before, but with its prefix and its root;
    /// none if `s` has no part.
    pub open spec fn parent_of(self, s: Seq<char>) -> Option<Seq<char>> {
        let verbatim = self.verbatim(s);
        let core = self.core_of(verbatim, self.body_of(s));
        let part = self.last_part(verbatim, core);
        if part.len() == 0 {
            None
        } else {
            Some(
                s.take(
                    self.body_start(s) + self.core_of(
                        verbatim,
                        core.take(core.len() - part.len()),
                    ).len(),
                ),
            )
        }
    }

    fn is_separator(self, c: char) -> (r: bool)
        ensures
            r == self.separates(c),
    {
        c == '/' || (self == Platform::Windows && c == '\\')
    }

    fn is_split(self, verbatim: bool, c: char) -> (r: bool)
        ensures
            r == self.splits(verbatim, c),
    {
        if verbatim {
            c == '\\'
        } else {
            self.is_separator(c)
        }
    }

    fn drive_at_start(self, v: &Vec<char>) -> (r: bool)
        ensures
            r == self.has_drive(v@),
    {
        self == Platform::Windows && v.len() >= 2 && v[1] == ':' && is_letter(v[0])
    }

    fn verbatim_at_start(self, v: &Vec<char>) -> (r: bool)
        ensures
            r == self.verbatim(v@),
    {
        self == Platform::Windows && v.len() >= 4 && v[0] == '\\' && v[1] == '\\' && v[2] == '?'
            && v[3] == '\\'
    }

    /// Where the part of `v` that starts at `from` ends.
    fn find_part_end(self, verbatim: bool, v: &Vec<char>, from: usize) -> (r: usize)
        requires
            from <= v.len(),
        ensures
            r == self.part_end(verbatim, v@, from as int),
            from <= r <= v.len(),
    {
        let mut i: usize = from;
        while i < v.len() && !self.is_split(verbatim, v[i])
            invariant
                from <= i <= v.len(),
                forall|k: int| from <= k < i ==> !self.splits(verbatim, #[trigger] v[k]),
            decreases v.len() - i,
        {
            i = i + 1;
        }
        proof {
            lemma_first_place(
                v@.skip(from as int),
                |c: char| self.splits(verbatim, c),
                i - from,
            );
        }
        i
    }

    /// Where the server and the share of `v` end, if the server starts at `from`.
    fn find_share_end(self, verbatim: bool, v: &Vec<char>, from: usize) -> (r: usize)
        requires
            from <= v.len(),
        ensures
            r == self.share_end(verbatim, v@, from as int),
            from <= r <= v.len(),
    {
        let server: usize = self.find_part_end(verbatim, v, from);
        if server < v.len() {
            let share: usize = self.find_part_end(verbatim, v, server + 1);
            if share > server + 1 {
                return share;
            }
        }
        server
    }

    /// How long the prefix of the path `v` is.
    fn find_prefix_len(self, v: &Vec<char>) -> (r: usize)
        ensures
            r == self.prefix_len(v@),
            r <= v.len(),
    {
        if self.drive_at_start(v) {
            2
        } else if !(self == Platform::Windows && v.len() >= 2 && self.is_separator(v[0])
            && self.is_separator(v[1])) {
            0
        } else if self.verbatim_at_start(v) {
            if v.len() >= 8 && v[4] == 'U' && v[5] == 'N' && v[6] == 'C' && self.is_separator(v[7]) {
                self.find_share_end(true, v, 8)
            } else if v.len() >= 6 && is_letter(v[4]) && v[5] == ':' && (v.len() == 6
                || self.is_separator(v[6])) {
                6
            } else {
                self.find_part_end(true, v, 4)
            }
        } else if v.len() >= 4 && v[2] == '.' && self.is_separator(v[3]) {
            self.find_part_end(false, v, 4)
        } else {
            let server: usize = self.find_part_end(false, v, 2);
            let share: usize = self.find_share_end(false, v, 2);
            if server > 2 && share > server {
                share
            } else {
                0
            }
        }
    }

    /// Where the parts of the path `v` start.
    fn find_body_start(self, v: &Vec<char>) -> (r: usize)
        ensures
            r == self.body_start(v@),
            r <= v.len(),
    {
        let prefix: usize = self.find_prefix_len(v);
        if prefix < v.len() && self.is_separator(v[prefix]) {
            prefix + 1
        } else {
            prefix
        }
    }

    /// Whether `path` does not depend on the current directory.
    pub fn is_absolute(self, path: &str) -> (r: bool)
        ensures
            r == self.absolute(path@),
    {
        let v = chars_of(path);
        match self {
            Platform::Unix => v.len() > 0 && self.is_separator(v[0]),
            Platform::Windows => self.find_prefix_len(&v) > 0 && (!self.drive_at_start(&v) || (
            v.len() >= 3 && self.is_separator(v[2]))),
        }
    }

    /// The parts of `text` from `start` on.
    fn split(self, verbatim: bool, text: &str, start: usize) -> (r: Vec<String>)
        requires
            start <= text@.len(),
        ensures
            text_views(r@) == parts_of(
                text@.skip(start as int),
                |c: char| self.splits(verbatim, c),
            ),
    {
        let v = chars_of(text);
        let ghost stop = |c: char| self.splits(verbatim, c);
        let ghost body = text@.skip(start as int);
        let mut r: Vec<String> = Vec::new();
        let mut to: usize = v.len();
        assert(body.take(to - start) == body);
        assert(text_views(r@) == Seq::<Seq<char>>::empty());
        while to > start
            invariant
                start <= to <= v.len(),
                v@ == text@,
                body == text@.skip(start as int),
                stop == |c: char| self.splits(verbatim, c),
                parts_of(body, stop) == parts_of(body.take(to - start), stop) + text_views(r@),
            decreases to,
        {
            let ghost rest = body.take(to - start);
            assert(rest.last() == v[to - 1]);
            if self.is_split(verbatim, v[to - 1]) {
                assert(rest.drop_last() == body.take(to - 1 - start));
                to = to - 1;
            } else {
                let mut from: usize = to - 1;
                while from > start && !self.is_split(verbatim, v[from - 1])
                    invariant
                        start <= from < to <= v.len(),
                        forall|k: int| from <= k < to ==> !self.splits(verbatim, #[trigger] v[k]),
                    decreases from,
                {
                    from = from - 1;
                }
                let part = slice_of(text, from, to);
                let ghost before = r@;
                proof {
                    assert forall|k: int| from - start <= k < rest.len() implies !stop(
                        #[trigger] rest[k],
                    ) by {
                        assert(rest[k] == v[k + start]);
                    }
                    if from > start {
                        assert(rest[from - start - 1] == v[from - 1]);
                    }
                    lemma_behind_last(rest, stop, from - start);
                    assert(rest.skip(from - start) == part@);
                    assert(rest.take(from - start) == body.take(from - start));
                    assert(parts_of(rest, stop) == parts_of(body.take(from - start), stop).push(
                        part@,
                    ));
                }
                r.insert(0, part);
                assert(text_views(r@) == seq![part@] + text_views(before));
                to = from;
            }
        }
        assert(body.take(0) == Seq::<char>::empty());
        r
    }

    /// `name` in the verbatim directory `base`.
    fn verbatim_join(self, base: &str, name: &str) -> (r: String)
        ensures
            r@ == self.verbatim_join_of(base@, name@),
    {
        let v = chars_of(base);
        let w = chars_of(name);
        let prefix: usize = self.find_prefix_len(&v);
        let start: usize = self.find_body_start(&v);
        let at_root: bool = w.len() > 0 && self.is_separator(w[0]);
        let dir: Vec<String> = if at_root {
            let none: Vec<String> = Vec::new();
            assert(text_views(none@) == Seq::<Seq<char>>::empty());
            none
        } else {
            self.split(true, base, start)
        };
        assert(name@.skip(0) == name@);
        let parts = walk(dir, &self.split(false, name, 0));
        let mut r = slice_of(base, 0, prefix);
        assert(r@ == base@.take(prefix as int));
        if parts.len() > 0 {
            push_backslashed(&mut r, &parts);
        } else if at_root || start > prefix {
            r.append("\\");
        } else {
            proof {
                reveal_strlit("");
                assert(r@ == r@ + ""@);
            }
        }
        r
    }

    /// `name` in the directory `base`.
    pub fn join(self, base: &str, name: &str) -> (r: String)
        ensures
            r@ == self.join_of(base@, name@),
    {
        let v = chars_of(base);
        let w = chars_of(name);
        let n: usize = v.len();
        let at_root: bool = w.len() > 0 && self.is_separator(w[0]);
        if (self == Platform::Unix && at_root) || self.find_prefix_len(&w) > 0 {
            return name.to_owned();
        }
        if self.verbatim_at_start(&v) && w.len() > 0 {
            return self.verbatim_join(base, name);
        }
        if at_root {
            let prefix: usize = self.find_prefix_len(&v);
            let mut r = slice_of(base, 0, prefix);
            assert(r@ == base@.take(prefix as int));
            r.append(name);
            return r;
        }
        if n == 0 || self.is_separator(v[n - 1]) || (self.drive_at_start(&v) && n == 2) {
            return joined(base, name);
        }
        let mut r = base.to_owned();
        match self {
            Platform::Unix => r.append("/"),
            Platform::Windows => r.append("\\"),
        }
        r.append(name);
        r
    }

    /// Where the last part of the stretch of `v` from `base` to before `end` starts
    /// and where it ends, without what is cut off behind it.
    fn last_part_range(self, exact: bool, v: &Vec<char>, base: usize, end: usize) -> (r: (
        usize,
        usize,
    ))
        requires
            base <= end <= v.len(),
        ensures
            base <= r.0 <= r.1 <= end,
            self.core_of(exact, v@.subrange(base as int, end as int)) == v@.subrange(
                base as int,
                r.1 as int,
            ),
            self.last_part(exact, v@.subrange(base as int, r.1 as int)) == v@.subrange(
                r.0 as int,
                r.1 as int,
            ),
    {
        let ghost body = v@.subrange(base as int, end as int);
        let ghost sep = |c: char| self.splits(exact, c);
        let mut to: usize = end;
        let mut from: usize = to;
        loop
            invariant
                base <= to <= end <= v.len(),
                body == v@.subrange(base as int, end as int),
                sep == |c: char| self.splits(exact, c),
                self.core_of(exact, body) == self.core_of(
                    exact,
                    v@.subrange(base as int, to as int),
                ),
            ensures
                base <= from <= to <= end,
                self.core_of(exact, body) == v@.subrange(base as int, to as int),
                self.last_part(exact, v@.subrange(base as int, to as int)) == v@.subrange(
                    from as int,
                    to as int,
                ),
            decreases to,
        {
            let ghost rest = v@.subrange(base as int, to as int);
            if to == base {
                from = to;
                assert(v@.subrange(from as int, to as int) == Seq::<char>::empty());
                break;
            }
            assert(rest.last() == v[to - 1]);
            assert(rest.drop_last() == v@.subrange(base as int, to - 1));
            if self.is_split(exact, v[to - 1]) {
                to = to - 1;
            } else {
                from = to - 1;
                while from > base && !self.is_split(exact, v[from - 1])
                    invariant
                        base <= from < to <= v.len(),
                        forall|k: int| from <= k < to ==> !self.splits(exact, #[trigger] v[k]),
                    decreases from,
                {
                    from = from - 1;
                }
                proof {
                    assert forall|k: int| from - base <= k < rest.len() implies !sep(
                        #[trigger] rest[k],
                    ) by {
                        assert(rest[k] == v[k + base]);
                    }
                    if from > base {
                        assert(rest[from - base - 1] == v[from - 1]);
                    }
                    lemma_behind_last(rest, sep, from - base);
                    assert(rest.skip(from - base) == v@.subrange(from as int, to as int));
                }
                if !exact && to - from == 1 && v[from] == '.' {
                    assert(v@.subrange(from as int, to as int) == seq!['.']);
                    to = to - 1;
                } else {
                    proof {
                        let part = v@.subrange(from as int, to as int);
                        if !exact && part == seq!['.'] {
                            assert(part[0] == '.');
                            assert(false);
                        }
                    }
                    break;
                }
            }
        }
        (from, to)
    }

    /// Where the file name of the path `v` starts and where it ends.
    fn file_name_range(self, v: &Vec<char>) -> (r: Option<(usize, usize)>)
        ensures
            match r {
                Some((from, to)) => {
                    &&& from < to <= v.len()
                    &&& self.file_name_of(v@) == Some(v@.subrange(from as int, to as int))
                    &&& to == self.body_start(v@) + self.core_of(
                        self.verbatim(v@),
                        self.body_of(v@),
                    ).len()
                },
                None => self.file_name_of(v@) is None,
            },
    {
        let base: usize = self.find_body_start(v);
        let exact: bool = self.verbatim_at_start(v);
        assert(self.body_of(v@) == v@.subrange(base as int, v.len() as int));
        let (from, to): (usize, usize) = self.last_part_range(exact, v, base, v.len());
        let ghost part = v@.subrange(from as int, to as int);
        if from == to {
            return None;
        }
        if to - from == 1 && v[from] == '.' {
            assert(part == seq!['.']);
            return None;
        }
        if to - from == 2 && v[from] == '.' && v[from + 1] == '.' {
            assert(part == seq!['.', '.']);
            return None;
        }
        proof {
            if part == seq!['.'] {
                assert(part[0] == '.');
            }
            if part == seq!['.', '.'] {
                assert(part[0] == '.' && part[1] == '.');
            }
        }
        Some((from, to))
    }

    /// The directory that the absolute path `path` stands in.
    pub fn parent(self, path: &str) -> (r: Option<String>)
        requires
            self.absolute(path@),
        ensures
            match r {
                Some(s) => self.parent_of(path@) == Some(s@),
                None => self.parent_of(path@) is None,
            },
    {
        let v = chars_of(path);
        let base: usize = self.find_body_start(&v);
        let exact: bool = self.verbatim_at_start(&v);
        assert(self.body_of(v@) == v@.subrange(base as int, v.len() as int));
        let (from, to): (usize, usize) = self.last_part_range(exact, &v, base, v.len());
        if from == to {
            return None;
        }
        let ghost core = v@.subrange(base as int, to as int);
        assert(core.take(core.len() - (to - from)) == v@.subrange(base as int, from as int));
        let (_, end): (usize, usize) = self.last_part_range(exact, &v, base, from);
        assert(v@.subrange(0, end as int) == v@.take(end as int));
        Some(slice_of(path, 0, end))
    }

    /// Where the stem of the file name of the path `v` ends, given where the
    /// file name stands.
    fn stem_end(v: &Vec<char>, from: usize, to: usize) -> (r: usize)
        requires
            from < to <= v.len(),
        ensures
            from < r <= to,
            stem_of(v@.subrange(from as int, to as int)) == v@.subrange(from as int, r as int),
    {
        let ghost name = v@.subrange(from as int, to as int);
        let mut p: usize = to;
        assert(name.take(name.len() as int) == name);
        while p > from && v[p - 1] != '.'
            invariant
                from <= p <= to <= v.len(),
                name == v@.subrange(from as int, to as int),
                last_point(name) == last_point(name.take(p - from)),
            decreases p,
        {
            assert(name.take(p - from).drop_last() == name.take(p - from - 1));
            p = p - 1;
        }
        if p > from + 1 {
            assert(name.take(p - from).last() == '.');
            assert(name.take(p - from - 1) == v@.subrange(from as int, p - 1));
            p - 1
        } else {
            if p == from + 1 {
                assert(name.take(1).last() == '.');
            } else {
                assert(name.take(0) == Seq::<char>::empty());
            }
            to
        }
    }

    /// The file name of `path` without its extension.
    pub fn file_stem(self, path: &str) -> (r: Option<String>)
        ensures
            match r {
                Some(s) => self.file_stem_of(path@) == Some(s@),
                None => self.file_stem_of(path@) is None,
            },
    {
        let v = chars_of(path);
        match self.file_name_range(&v) {
            Some((from, to)) => {
                let end: usize = Self::stem_end(&v, from, to);
                Some(slice_of(path, from, end))
            },
            None => None,
        }
    }

    /// `path` with `ext` for the extension of its file name.
    pub fn with_extension(self, path: &str, ext: &str) -> (r: String)
        ensures
            r@ == self.with_extension_of(path@, ext@),
    {
        let v = chars_of(path);
        match self.file_name_range(&v) {
            Some((from, to)) => {
                let end: usize = Self::stem_end(&v, from, to);
                let mut r = slice_of(path, 0, end);
                r.append(".");
                r.append(ext);
                assert(path@.subrange(0, end as int) == path@.take(end as int));
                r
            },
            None => path.to_owned(),
        }
    }
}

fn is_letter(c: char) -> (r: bool)
    ensures
        r == letter(c),
{
    ('a' <= c && c <= 'z') || ('A' <= c && c <= 'Z')
}

/// Whether `s` is made of `count` points, one or two of them.
fn is_points(s: &str, count: usize) -> (r: bool)
    requires
        1 <= count <= 2,
    ensures
        r == (s@ == if count == 1 {
            seq!['.']
        } else {
            seq!['.', '.']
        }),
{
    let v = chars_of(s);
    if v.len() != count {
        return false;
    }
    let r: bool = v[0] == '.' && v[count - 1] == '.';
    proof {
        if r {
            assert(s@ == if count == 1 {
                seq!['.']
            } else {
                seq!['.', '.']
            });
        } else {
            assert(seq!['.'][0] == '.');
            assert(seq!['.', '.'][0] == '.' && seq!['.', '.'][1] == '.');
        }
    }
    r
}

/// Where `parts` lead to from `dir`.
fn walk(dir: Vec<String>, parts: &Vec<String>) -> (r: Vec<String>)
    ensures
        text_views(r@) == walked(text_views(dir@), text_views(parts@)),
{
    let ghost from = text_views(dir@);
    let ghost views = text_views(parts@);
    let mut r = dir;
    let mut i: usize = 0;
    assert(views.take(0) == Seq::<Seq<char>>::empty());
    while i < parts.len()
        invariant
            i <= parts.len(),
            views == text_views(parts@),
            text_views(r@) == walked(from, views.take(i as int)),
        decreases parts.len() - i,
    {
        let ghost before = r@;
        assert(views.take(i + 1).drop_last() == views.take(i as int));
        assert(views.take(i + 1).last() == parts[i as int]@);
        let part: &str = parts[i].as_str();
        if !is_points(part, 1) {
            if is_points(part, 2) {
                let n: usize = r.len();
                if n > 0 && !is_points(r[n - 1].as_str(), 1) && !is_points(r[n - 1].as_str(), 2) {
                    r.pop();
                    assert(text_views(r@) == text_views(before).drop_last());
                }
            } else {
                r.push(part.to_owned());
                assert(text_views(r@) == text_views(before).push(part@));
            }
        }
        i = i + 1;
    }
    assert(views.take(parts.len() as int) == views);
    r
}

/// Appends the parts to `s`, with a backslash in front of each.
fn push_backslashed(s: &mut String, parts: &Vec<String>)
    ensures
        final(s)@ == old(s)@ + backslashed(text_views(parts@)),
{
    let ghost start = s@;
    let ghost views = text_views(parts@);
    let mut i: usize = 0;
    assert(views.take(0) == Seq::<Seq<char>>::empty());
    assert(s@ == start + backslashed(views.take(0)));
    while i < parts.len()
        invariant
            i <= parts.len(),
            views == text_views(parts@),
            s@ == start + backslashed(views.take(i as int)),
        decreases parts.len() - i,
    {
        let ghost before = s@;
        assert(views.take(i + 1).drop_last() == views.take(i as int));
        s.append("\\");
        s.append(parts[i].as_str());
        assert(s@ == start + backslashed(views.take(i + 1)));
        i = i + 1;
    }
    assert(views.take(parts.len() as int) == views);
}

/// Whether `name` names an entry of a directory: it is not empty, holds no
/// separator and no drive, and leads neither here nor to the parent directory.
pub open spec fn plain_name(platform: Platform, name: Seq<char>) -> bool {
    &&& name.len() > 0
    &&& forall|k: int| 0 <= k < name.len() ==> !platform.separates(#[trigger] name[k])
    &&& !platform.has_drive(name)
    &&& name != seq!['.']
    &&& name != seq!['.', '.']
}

/// Whether `name` in the directory `base` is no part of a prefix. On Windows it
/// would be, for instance, in `\\\\server`, as the name of a share.
pub open spec fn keeps_prefix(platform: Platform, base: Seq<char>, name: Seq<char>) -> bool {
    platform.prefix_len(platform.join_of(base, name)) == platform.prefix_len(base)
}

/// A server and a share lie within the path.
proof fn lemma_share_end(platform: Platform, verbatim: bool, s: Seq<char>, from: int)
    requires
        0 <= from <= s.len(),
    ensures
        from <= platform.part_end(verbatim, s, from) <= s.len(),
        from <= platform.share_end(verbatim, s, from) <= s.len(),
{
    let stop = |c: char| platform.splits(verbatim, c);
    lemma_first_place_bounds(s.skip(from), stop);
    let server = platform.part_end(verbatim, s, from);
    if server < s.len() {
        lemma_first_place_bounds(s.skip(server + 1), stop);
    }
}

/// A prefix lies within its path, and a verbatim one has its four characters.
proof fn lemma_prefix_len(platform: Platform, s: Seq<char>)
    ensures
        0 <= platform.prefix_len(s) <= s.len(),
        platform.verbatim(s) ==> platform.prefix_len(s) >= 4,
{
    if s.len() >= 8 {
        lemma_share_end(platform, true, s, 8);
    }
    if s.len() >= 4 {
        lemma_share_end(platform, true, s, 4);
        lemma_share_end(platform, false, s, 4);
    }
    if s.len() >= 2 {
        lemma_share_end(platform, false, s, 2);
    }
}

/// A name without a separator is its own only part.
proof fn lemma_single_part(platform: Platform, name: Seq<char>)
    requires
        plain_name(platform, name),
    ensures
        parts_of(name, |c: char| platform.splits(false, c)) == seq![name],
{
    let stop = |c: char| platform.splits(false, c);
    reveal_with_fuel(parts_of, 2);
    assert(!stop(name[name.len() - 1]));
    lemma_behind_last(name, stop, 0);
    assert(name.skip(0) == name);
    assert(name.take(0) == Seq::<char>::empty());
}

/// What stands before a plain name in a directory: the same for every such name,
/// and nothing, a bare drive, or something with a separator at its end.
spec fn front_of(platform: Platform, base: Seq<char>) -> Seq<char> {
    if platform.verbatim(base) {
        base.take(platform.prefix_len(base)) + backslashed(
            parts_of(platform.body_of(base), |c: char| platform.splits(true, c)),
        ) + "\\"@
    } else if base.len() == 0 || platform.separates(base.last()) || (platform.has_drive(base)
        && base.len() == 2) {
        base
    } else {
        base + platform.separator_of()
    }
}

/// A plain name in a directory stands behind that.
proof fn lemma_front(platform: Platform, base: Seq<char>, name: Seq<char>)
    requires
        plain_name(platform, name),
    ensures
        platform.join_of(base, name) == front_of(platform, base) + name,
{
    assert(!platform.separates(name[0]));
    if platform.verbatim(base) {
        lemma_single_part(platform, name);
        let dir = parts_of(platform.body_of(base), |c: char| platform.splits(true, c));
        reveal_with_fuel(walked, 2);
        assert(seq![name].drop_last() == Seq::<Seq<char>>::empty());
        assert(platform.verbatim_parts(base, name) == dir.push(name));
        assert(dir.push(name).drop_last() == dir);
    }
}

/// A name that ends a path, behind a separator or at its start, is its last part.
proof fn lemma_last_part(platform: Platform, verbatim: bool, body: Seq<char>, name: Seq<char>)
    requires
        plain_name(platform, name),
        verbatim ==> platform is Windows,
        name.len() <= body.len(),
        body.skip(body.len() - name.len()) == name,
        name.len() < body.len() ==> platform.splits(verbatim, body[body.len() - name.len() - 1]),
    ensures
        platform.core_of(verbatim, body) == body,
        platform.last_part(verbatim, body) == name,
{
    let sep = |c: char| platform.splits(verbatim, c);
    let from = body.len() - name.len();
    assert forall|k: int| from <= k < body.len() implies !sep(#[trigger] body[k]) by {
        assert(body[k] == body.skip(from)[k - from]);
        assert(!platform.separates(name[k - from]));
    }
    lemma_behind_last(body, sep, from);
    assert(!sep(body[body.len() - 1]));
}

/// What stands before a name in a directory holds the prefix of the directory, and
/// ends with it or with a separator.
proof fn lemma_front_end(platform: Platform, base: Seq<char>)
    ensures
        platform.prefix_len(base) <= front_of(platform, base).len(),
        platform.prefix_len(base) < front_of(platform, base).len() ==> platform.splits(
            platform.verbatim(base),
            front_of(platform, base).last(),
        ),
        platform.verbatim(base) ==> platform.prefix_len(base) >= 4 && base.take(4)
            == front_of(platform, base).take(4),
        !platform.verbatim(base) ==> base.is_prefix_of(front_of(platform, base)),
{
    reveal_strlit("/");
    reveal_strlit("\\");
    lemma_prefix_len(platform, base);
}

/// Where `name` stands in `base` joined with it: at the end, as the last part of
/// what is left of the path without its prefix.
proof fn lemma_join(platform: Platform, base: Seq<char>, name: Seq<char>)
    requires
        plain_name(platform, name),
        keeps_prefix(platform, base, name),
    ensures
        ({
            let path = platform.join_of(base, name);
            let verbatim = platform.verbatim(path);
            &&& path == front_of(platform, base) + name
            &&& platform.core_of(verbatim, platform.body_of(path)) == platform.body_of(path)
            &&& platform.file_name_of(path) == Some(name)
            &&& platform.body_start(path) + platform.body_of(path).len() == path.len()
        }),
{
    let front = front_of(platform, base);
    lemma_front(platform, base, name);
    lemma_front_end(platform, base);
    lemma_joined(platform, base, front, name);
}

/// Where `name` stands behind `front`, which holds the prefix of `base`, and ends
/// with it or with a separator.
proof fn lemma_joined(platform: Platform, base: Seq<char>, front: Seq<char>, name: Seq<char>)
    requires
        plain_name(platform, name),
        platform.prefix_len(front + name) == platform.prefix_len(base) <= front.len(),
        platform.prefix_len(base) < front.len() ==> platform.splits(
            platform.verbatim(base),
            front.last(),
        ),
        platform.verbatim(base) ==> base.take(4) == front.take(4),
        !platform.verbatim(base) ==> base.is_prefix_of(front),
    ensures
        ({
            let path = front + name;
            let verbatim = platform.verbatim(path);
            &&& platform.core_of(verbatim, platform.body_of(path)) == platform.body_of(path)
            &&& platform.file_name_of(path) == Some(name)
            &&& platform.body_start(path) + platform.body_of(path).len() == path.len()
        }),
{
    let path = front + name;
    let verbatim = platform.verbatim(path);
    let prefix = platform.prefix_len(path);
    let start = platform.body_start(path);
    lemma_prefix_len(platform, base);
    lemma_prefix_len(platform, path);
    if verbatim && !platform.verbatim(base) {
        assert(base == front.take(base.len() as int));
        assert(base[0] == path[0] && base[1] == path[1] && base[2] == path[2] && base[3]
            == path[3]);
        assert(false);
    }
    if prefix == front.len() {
        assert(path[prefix] == name[0]);
    }
    assert(prefix <= start <= front.len());
    let body = platform.body_of(path);
    assert(body == front.skip(start) + name);
    assert(body.skip(body.len() - name.len()) == name);
    if name.len() < body.len() {
        assert(body[body.len() - name.len() - 1] == front.last());
        assert(platform.splits(verbatim, front.last()));
    }
    lemma_last_part(platform, verbatim, body, name);
}

/// What is put into a directory is found there: the file name of `name` in the
/// directory `base` is `name`.
pub proof fn law_join_names_file(platform: Platform, base: Seq<char>, name: Seq<char>)
    requires
        plain_name(platform, name),
        keeps_prefix(platform, base, name),
    ensures
        platform.file_name_of(platform.join_of(base, name)) == Some(name),
        platform.file_stem_of(platform.join_of(base, name)) == Some(stem_of(name)),
{
    lemma_join(platform, base, name);
}

/// There is a point where the last one is said to be.
pub proof fn lemma_last_point(s: Seq<char>)
    ensures
        match last_point(s) {
            Some(p) => 0 <= p < s.len() && s[p] == '.',
            None => true,
        },
    decreases s.len(),
{
    if s.len() > 0 && s.last() != '.' {
        lemma_last_point(s.drop_last());
    }
}

/// Where a path ends with its file name, a changed extension changes what stands
/// behind the stem.
proof fn lemma_extension(platform: Platform, front: Seq<char>, name: Seq<char>, ext: Seq<char>)
    requires
        plain_name(platform, name),
        platform.file_name_of(front + name) == Some(name),
        platform.body_start(front + name) + platform.core_of(
            platform.verbatim(front + name),
            platform.body_of(front + name),
        ).len() == (front + name).len(),
    ensures
        platform.with_extension_of(front + name, ext) == front + (stem_of(name) + "."@ + ext),
{
    let stem = stem_of(name);
    lemma_last_point(name);
    assert((front + name).take((front.len() + stem.len()) as int) == front + stem);
    assert(front + stem + "."@ + ext == front + (stem + "."@ + ext));
}

/// A changed extension changes the file name and nothing else: the file stays in
/// its directory.
pub proof fn law_extension_stays_in_directory(
    platform: Platform,
    base: Seq<char>,
    name: Seq<char>,
    ext: Seq<char>,
)
    requires
        plain_name(platform, name),
        keeps_prefix(platform, base, name),
        plain_name(platform, stem_of(name) + "."@ + ext),
    ensures
        platform.with_extension_of(platform.join_of(base, name), ext) == platform.join_of(
            base,
            stem_of(name) + "."@ + ext,
        ),
{
    let front = front_of(platform, base);
    lemma_join(platform, base, name);
    lemma_front(platform, base, stem_of(name) + "."@ + ext);
    lemma_extension(platform, front, name, ext);
}

/// Different names in one directory are different paths.
pub proof fn law_names_are_told_apart(
    platform: Platform,
    base: Seq<char>,
    a: Seq<char>,
    b: Seq<char>,
)
    requires
        plain_name(platform, a),
        plain_name(platform, b),
        a != b,
    ensures
        platform.join_of(base, a) != platform.join_of(base, b),
{
    lemma_front(platform, base, a);
    lemma_front(platform, base, b);
    let front = front_of(platform, base);
    assert((front + a).skip(front.len() as int) == a);
    assert((front + b).skip(front.len() as int) == b);
}

/// Two paths that agree up to the end of a part of the first, and where the second
/// goes on with a separator or ends there too, have that part in common.
proof fn lemma_same_part(
    platform: Platform,
    verbatim: bool,
    s: Seq<char>,
    t: Seq<char>,
    from: int,
)
    requires
        0 <= from <= s.len(),
        ({
            let end = platform.part_end(verbatim, s, from);
            &&& end <= t.len()
            &&& s.take(end) == t.take(end)
            &&& end < t.len() ==> platform.splits(verbatim, t[end])
        }),
    ensures
        platform.part_end(verbatim, t, from) == platform.part_end(verbatim, s, from),
{
    let stop = |c: char| platform.splits(verbatim, c);
    let end = platform.part_end(verbatim, s, from);
    lemma_first_place_bounds(s.skip(from), stop);
    assert forall|k: int| 0 <= k < end - from implies !stop(#[trigger] t.skip(from)[k]) by {
        assert(t.skip(from)[k] == t.take(end)[from + k]);
        assert(s.skip(from)[k] == s.take(end)[from + k]);
        assert(!stop(s.skip(from)[k]));
    }
    lemma_first_place(t.skip(from), stop, end - from);
}

/// A part that is not empty ends behind its start.
proof fn lemma_part_not_empty(platform: Platform, verbatim: bool, s: Seq<char>, from: int)
    requires
        0 <= from < s.len(),
        !platform.splits(verbatim, s[from]),
    ensures
        platform.part_end(verbatim, s, from) > from,
{
    let stop = |c: char| platform.splits(verbatim, c);
    lemma_first_place_bounds(s.skip(from), stop);
    assert(s.skip(from)[0] == s[from]);
}

/// A part ends no later than a separator.
proof fn lemma_part_before(platform: Platform, verbatim: bool, s: Seq<char>, from: int, at: int)
    requires
        0 <= from <= at < s.len(),
        platform.splits(verbatim, s[at]),
    ensures
        from <= platform.part_end(verbatim, s, from) <= at,
{
    let stop = |c: char| platform.splits(verbatim, c);
    lemma_first_place_bounds(s.skip(from), stop);
    assert(s.skip(from)[at - from] == s[at]);
}

/// Parts are not empty and hold no separator.
proof fn lemma_parts(s: Seq<char>, stop: spec_fn(char) -> bool)
    ensures
        forall|i: int|
            0 <= i < parts_of(s, stop).len() ==> (#[trigger] parts_of(s, stop)[i]).len() > 0,
        forall|i: int, k: int|
            0 <= i < parts_of(s, stop).len() && 0 <= k < parts_of(s, stop)[i].len() ==> !stop(
                #[trigger] parts_of(s, stop)[i][k],
            ),
    decreases s.len(),
{
    if s.len() == 0 {
        assert(parts_of(s, stop).len() == 0);
    } else {
        if stop(s.last()) {
            lemma_parts(s.drop_last(), stop);
            assert(parts_of(s, stop) == parts_of(s.drop_last(), stop));
        } else {
            let part = behind_last(s, stop);
            lemma_behind_last_len(s, stop);
            lemma_no_stop(s, stop);
            let rest = parts_of(s.take(s.len() - part.len()), stop);
            lemma_parts(s.take(s.len() - part.len()), stop);
            let parts = parts_of(s, stop);
            assert(parts == rest.push(part));
            assert forall|i: int| 0 <= i < parts.len() implies (#[trigger] parts[i]).len() > 0 by {
                if i < rest.len() {
                    assert(parts[i] == rest[i]);
                }
            }
            assert forall|i: int, k: int| 0 <= i < parts.len() && 0 <= k < parts[i].len() implies
                !stop(#[trigger] parts[i][k]) by {
                if i < rest.len() {
                    assert(parts[i] == rest[i]);
                    assert(!stop(rest[i][k]));
                } else {
                    assert(!stop(part[k]));
                }
            }
        }
    }
}

/// Behind each backslash in front of a part stands the part.
proof fn lemma_backslashed(parts: Seq<Seq<char>>)
    requires
        forall|i: int| 0 <= i < parts.len() ==> (#[trigger] parts[i]).len() > 0,
        forall|i: int, k: int|
            0 <= i < parts.len() && 0 <= k < parts[i].len() ==> #[trigger] parts[i][k] != '\\',
    ensures
        parts.len() > 0 ==> backslashed(parts).len() > parts.last().len() && backslashed(parts)[0]
            == '\\',
        forall|k: int|
            0 <= k < backslashed(parts).len() && #[trigger] backslashed(parts)[k] == '\\' ==> k + 1
                < backslashed(parts).len() && backslashed(parts)[k + 1] != '\\',
    decreases parts.len(),
{
    reveal_strlit("\\");
    if parts.len() > 0 {
        let rest = parts.drop_last();
        let last = parts.last();
        let front = backslashed(rest);
        let text = backslashed(parts);
        assert forall|i: int, k: int| 0 <= i < rest.len() && 0 <= k < rest[i].len() implies
            #[trigger] rest[i][k] != '\\' by {
            assert(rest[i] == parts[i]);
        }
        lemma_backslashed(rest);
        assert(last == parts[parts.len() - 1]);
        if rest.len() > 0 {
            assert(text[0] == front[0]);
        }
        assert forall|k: int| 0 <= k < text.len() && #[trigger] text[k] == '\\' implies k + 1
            < text.len() && text[k + 1] != '\\' by {
            if k < front.len() {
                assert(text[k] == front[k]);
                assert(text[k + 1] == front[k + 1]);
            } else if k == front.len() {
                assert(text[k + 1] == last[0]);
            } else {
                assert(text[k] == last[k - front.len() - 1]);
            }
        }
    }
}

/// A name in a verbatim directory stands in a text of parts with a backslash in
/// front of each, behind the prefix of the directory.
proof fn lemma_verbatim_front(platform: Platform, base: Seq<char>, name: Seq<char>) -> (text: Seq<
    char,
>)
    requires
        plain_name(platform, name),
        platform.verbatim(base),
    ensures
        platform.join_of(base, name) == base.take(platform.prefix_len(base)) + text,
        4 <= platform.prefix_len(base) <= base.len(),
        text.len() > name.len(),
        text[0] == '\\',
        forall|k: int|
            0 <= k < text.len() && #[trigger] text[k] == '\\' ==> k + 1 < text.len() && text[k + 1]
                != '\\',
        ({
            let stop = |c: char| platform.splits(true, c);
            let dir = parts_of(platform.body_of(base), stop);
            dir.len() > 0 ==> text.len() > dir.last().len() + 1 + name.len()
        }),
{
    let stop = |c: char| platform.splits(true, c);
    let dir = parts_of(platform.body_of(base), stop);
    let parts = dir.push(name);
    let text = backslashed(parts);
    lemma_prefix_len(platform, base);
    lemma_front(platform, base, name);
    lemma_parts(platform.body_of(base), stop);
    assert(parts.drop_last() == dir);
    assert(platform.join_of(base, name) == base.take(platform.prefix_len(base)) + text);
    assert forall|i: int, k: int| 0 <= i < parts.len() && 0 <= k < parts[i].len() implies
        #[trigger] parts[i][k] != '\\' by {
        if i < dir.len() {
            assert(!stop(dir[i][k]));
        } else {
            assert(!platform.separates(name[k]));
        }
    }
    lemma_backslashed(parts);
    assert forall|i: int, k: int| 0 <= i < dir.len() && 0 <= k < dir[i].len() implies
        #[trigger] dir[i][k] != '\\' by {
        assert(!stop(dir[i][k]));
    }
    lemma_backslashed(dir);
    reveal_strlit("\\");
    text
}

/// A verbatim prefix stays as it is in a path that goes on with a backslash behind
/// it, if a server in it has its share.
proof fn lemma_same_verbatim_prefix(platform: Platform, s: Seq<char>, t: Seq<char>)
    requires
        platform.verbatim(s),
        s.len() >= 8,
        platform.prefix_len(s) < t.len(),
        t.take(platform.prefix_len(s)) == s.take(platform.prefix_len(s)),
        t[platform.prefix_len(s)] == '\\',
        platform.names_server(s) ==> platform.part_end(true, s, 8) < platform.prefix_len(s),
    ensures
        platform.prefix_len(t) == platform.prefix_len(s),
{
    let q = platform.prefix_len(s);
    lemma_prefix_len(platform, s);
    assert forall|k: int| 0 <= k < q implies s[k] == #[trigger] t[k] by {
        assert(s.take(q)[k] == t.take(q)[k]);
    }
    lemma_share_end(platform, true, s, 4);
    lemma_share_end(platform, true, s, 8);
    if platform.names_server(s) {
        let server = platform.part_end(true, s, 8);
        assert(s.take(server) == t.take(server));
        lemma_first_place_bounds(s.skip(8), |c: char| platform.splits(true, c));
        assert(s.skip(8)[server - 8] == s[server]);
        lemma_same_part(platform, true, s, t, 8);
        lemma_same_part(platform, true, s, t, server + 1);
    } else if letter(s[4]) && s[5] == ':' && platform.separates(s[6]) {
        assert(t[5] == ':');
    } else {
        lemma_same_part(platform, true, s, t, 4);
        let stop = |c: char| platform.splits(true, c);
        lemma_first_place_bounds(s.skip(4), stop);
        if q < s.len() {
            assert(s.skip(4)[q - 4] == s[q]);
        }
    }
}

/// In a verbatim directory, a server is followed by its share, unless it is the last
/// thing of the path.
proof fn lemma_server_has_share(platform: Platform, base: Seq<char>, name: Seq<char>)
    requires
        plain_name(platform, name),
        platform.verbatim(base),
        platform.names_server(platform.join_of(base, name)),
        platform.part_end(true, platform.join_of(base, name), 8) < platform.join_of(
            base,
            name,
        ).len(),
    ensures
        platform.part_end(true, platform.join_of(base, name), 8) < platform.prefix_len(
            platform.join_of(base, name),
        ),
{
    let path = platform.join_of(base, name);
    let text = lemma_verbatim_front(platform, base, name);
    let q = platform.prefix_len(base);
    let server = platform.part_end(true, path, 8);
    assert forall|k: int| 0 <= k < q implies base[k] == #[trigger] path[k] by {}
    assert(platform.verbatim(path));
    lemma_share_end(platform, true, path, 8);
    lemma_first_place_bounds(path.skip(8), |c: char| platform.splits(true, c));
    assert(path.skip(8)[server - 8] == path[server]);
    if server >= q {
        assert(path[server] == text[server - q]);
        assert(path[server + 1] == text[server - q + 1]);
        lemma_part_not_empty(platform, true, path, server + 1);
    } else {
        assert(platform.names_server(base));
        assert(base.take(server) == path.take(server));
        lemma_same_part(platform, true, path, base, 8);
        lemma_share_end(platform, true, base, 8);
        assert(base.take(q) == path.take(q));
        assert(path[q] == text[0]);
        lemma_same_part(platform, true, base, path, server + 1);
    }
}

/// What ends with characters that are no stops has them behind its last stop.
proof fn lemma_behind_last_at_least(s: Seq<char>, stop: spec_fn(char) -> bool, count: int)
    requires
        0 <= count <= s.len(),
        forall|k: int| s.len() - count <= k < s.len() ==> !stop(#[trigger] s[k]),
    ensures
        behind_last(s, stop).len() >= count,
    decreases s.len(),
{
    if count > 0 {
        assert(!stop(s[s.len() - 1]));
        lemma_behind_last_at_least(s.drop_last(), stop, count - 1);
    }
}

/// A prefix takes in two names at most, those of a server and a share: a third one
/// is no part of it. (The first is longer than what may stand before a server.)
pub proof fn lemma_third_name(
    platform: Platform,
    base: Seq<char>,
    a: Seq<char>,
    b: Seq<char>,
    c: Seq<char>,
)
    requires
        plain_name(platform, a),
        plain_name(platform, b),
        plain_name(platform, c),
        a.len() > 8,
    ensures
        keeps_prefix(platform, platform.join_of(platform.join_of(base, a), b), c),
{
    if platform is Windows {
        let outer = platform.join_of(base, a);
        let inner = platform.join_of(outer, b);
        lemma_front(platform, base, a);
        lemma_front(platform, outer, b);
        lemma_front(platform, inner, c);
        let front = front_of(platform, base);
        assert(outer == front + a);
        assert(outer.last() == a[a.len() - 1]);
        if platform.verbatim(outer) {
            lemma_third_verbatim(platform, front, a, b, c);
        } else {
            lemma_third_plain(platform, outer, b, c);
        }
    }
}

proof fn lemma_third_plain(platform: Platform, outer: Seq<char>, b: Seq<char>, c: Seq<char>)
    requires
        platform is Windows,
        outer.len() > 8,
        !platform.verbatim(outer),
        !platform.separates(outer.last()),
        plain_name(platform, b),
        plain_name(platform, c),
    ensures
        keeps_prefix(platform, platform.join_of(outer, b), c),
{
    reveal_strlit("\\");
    let inner = platform.join_of(outer, b);
    let path = platform.join_of(inner, c);
    lemma_front(platform, outer, b);
    assert(inner == outer + "\\"@ + b);
    assert(!platform.verbatim(inner));
    assert(inner.last() == b[b.len() - 1]);
    lemma_front(platform, inner, c);
    assert(path == inner + "\\"@ + c);
    assert forall|k: int| 0 <= k < inner.len() implies inner[k] == #[trigger] path[k] by {}
    assert(path[inner.len() as int] == '\\');
    lemma_appended_part(platform, inner, path, 4);
    lemma_appended_part(platform, inner, path, 2);
    assert(inner[outer.len() as int] == '\\');
    lemma_part_before(platform, false, inner, 2, outer.len() as int);
    let server = platform.part_end(false, inner, 2);
    lemma_appended_part(platform, inner, path, server + 1);
}

/// A part of a path stays as it is where the path goes on with a separator.
proof fn lemma_appended_part(platform: Platform, s: Seq<char>, t: Seq<char>, from: int)
    requires
        0 <= from <= s.len() < t.len(),
        forall|k: int| 0 <= k < s.len() ==> s[k] == #[trigger] t[k],
        platform.separates(t[s.len() as int]),
    ensures
        platform.part_end(false, t, from) == platform.part_end(false, s, from),
{
    let stop = |c: char| platform.splits(false, c);
    let end = platform.part_end(false, s, from);
    lemma_first_place_bounds(s.skip(from), stop);
    assert(s.take(end) == t.take(end));
    if end < s.len() {
        assert(s.skip(from)[end - from] == s[end]);
        assert(t[end] == s[end]);
    }
    lemma_same_part(platform, false, s, t, from);
}

proof fn lemma_third_verbatim(
    platform: Platform,
    front: Seq<char>,
    a: Seq<char>,
    b: Seq<char>,
    c: Seq<char>,
)
    requires
        platform.verbatim(front + a),
        plain_name(platform, a),
        plain_name(platform, b),
        plain_name(platform, c),
        a.len() > 8,
    ensures
        keeps_prefix(platform, platform.join_of(front + a, b), c),
{
    let outer = front + a;
    let inner = platform.join_of(outer, b);
    let stop = |c: char| platform.splits(true, c);
    let text = lemma_verbatim_front(platform, outer, b);
    let q = platform.prefix_len(outer);
    assert forall|k: int| 0 <= k < q implies outer[k] == #[trigger] inner[k] by {}
    assert(platform.verbatim(inner));
    // What stands before `b` is longer than eight characters.
    assert(inner.len() > 8 + b.len()) by {
        if q < 8 {
            if front.len() < 4 {
                assert(outer[3] == a[3 - front.len()]);
            }
            let start = platform.body_start(outer);
            let body = platform.body_of(outer);
            assert(start <= 8);
            assert forall|k: int| body.len() - 5 <= k < body.len() implies !stop(
                #[trigger] body[k],
            ) by {
                assert(body[k] == outer[start + k]);
                assert(outer[start + k] == a[start + k - front.len()]);
            }
            lemma_behind_last_at_least(body, stop, 5);
            let dir = parts_of(body, stop);
            assert(!stop(body[body.len() - 1]));
            assert(dir.last() == behind_last(body, stop));
        }
    }
    let at = inner.len() - b.len() - 1;
    lemma_front(platform, outer, b);
    reveal_strlit("\\");
    assert(inner[at] == '\\');
    if platform.names_server(inner) {
        lemma_part_before(platform, true, inner, 8, at);
        lemma_server_has_share(platform, outer, b);
    }
    let path = platform.join_of(inner, c);
    let more = lemma_verbatim_front(platform, inner, c);
    let prefix = platform.prefix_len(inner);
    assert(path.take(prefix) == inner.take(prefix));
    assert(path[prefix] == more[0]);
    lemma_same_verbatim_prefix(platform, inner, path);
}

/// The stem of a path is never empty and never holds a separator of that path.
pub proof fn law_stem_is_plain(platform: Platform, path: Seq<char>)
    ensures
        match platform.file_stem_of(path) {
            Some(s) => s.len() > 0 && forall|k: int|
                0 <= k < s.len() ==> !platform.splits(platform.verbatim(path), #[trigger] s[k]),
            None => true,
        },
{
    let verbatim = platform.verbatim(path);
    let core = platform.core_of(verbatim, platform.body_of(path));
    let name = platform.last_part(verbatim, core);
    lemma_no_stop(core, |c: char| platform.splits(verbatim, c));
    lemma_last_point(name);
    if platform.file_stem_of(path) is Some {
        let s = stem_of(name);
        assert forall|k: int| 0 <= k < s.len() implies !platform.splits(
            verbatim,
            #[trigger] s[k],
        ) by {
            assert(s[k] == name[k]);
        }
    }
}

/// Nothing behind the last stop is a stop.
proof fn lemma_no_stop(s: Seq<char>, stop: spec_fn(char) -> bool)
    ensures
        forall|k: int|
            0 <= k < behind_last(s, stop).len() ==> !stop(#[trigger] behind_last(s, stop)[k]),
    decreases s.len(),
{
    if s.len() > 0 && !stop(s.last()) {
        lemma_no_stop(s.drop_last(), stop);
        let rest = behind_last(s.drop_last(), stop);
        assert forall|k: int| 0 <= k < behind_last(s, stop).len() implies !stop(
            #[trigger] behind_last(s, stop)[k],
        ) by {
            if k < rest.len() {
                assert(behind_last(s, stop)[k] == rest[k]);
            }
        }
    }
}

/// On Unix the directory of a file in a directory of a rooted one is that directory.
pub proof fn law_unix_parent(root: Seq<char>, dir: Seq<char>, name: Seq<char>)
    requires
        root.len() > 0,
        root[0] == '/',
        plain_name(Platform::Unix, dir),
        plain_name(Platform::Unix, name),
    ensures
        ({
            let inner = Platform::Unix.join_of(root, dir);
            let path = Platform::Unix.join_of(inner, name);
            Platform::Unix.absolute(path) && Platform::Unix.parent_of(path) == Some(inner)
        }),
{
    let u = Platform::Unix;
    reveal_strlit("/");
    let inner = u.join_of(root, dir);
    let path = u.join_of(inner, name);
    lemma_join(u, root, dir);
    lemma_join(u, inner, name);
    assert(inner.last() == dir[dir.len() - 1]);
    assert(path == inner + "/"@ + name);
    assert(inner[0] == '/' && path[0] == '/');
    let body = u.body_of(path);
    let front = body.take(body.len() - name.len());
    assert(front == inner.skip(1) + "/"@);
    assert(front.last() == '/');
    assert(front.drop_last() == u.body_of(inner));
    assert(u.core_of(false, front) == u.body_of(inner));
    assert(path.take(inner.len() as int) == inner);
}

/// The extension of a file name starts at its last point, unless nothing stands before
/// that.
pub proof fn law_stem(front: Seq<char>, ext: Seq<char>)
    requires
        !ext.contains('.'),
    ensures
        front.len() > 0 ==> stem_of(front + seq!['.'] + ext) == front,
        stem_of(seq!['.'] + ext) == seq!['.'] + ext,
        stem_of(ext) == ext,
{
    lemma_point_before(front, ext);
    assert((front + seq!['.'] + ext).take(front.len() as int) == front);
    lemma_point_before(seq![], ext);
    assert(Seq::<char>::empty() + seq!['.'] + ext == seq!['.'] + ext);
    lemma_no_point(ext);
}

proof fn lemma_point_before(front: Seq<char>, ext: Seq<char>)
    requires
        !ext.contains('.'),
    ensures
        last_point(front + seq!['.'] + ext) == Some(front.len() as int),
    decreases ext.len(),
{
    let s = front + seq!['.'] + ext;
    if ext.len() == 0 {
        assert(s.last() == '.');
    } else {
        let rest = ext.drop_last();
        assert(ext.contains(ext[ext.len() - 1]));
        assert forall|c: char| rest.contains(c) implies ext.contains(c) by {
            let k = choose|k: int| 0 <= k < rest.len() && rest[k] == c;
            assert(ext[k] == c);
        }
        lemma_point_before(front, rest);
        assert(s.drop_last() == front + seq!['.'] + rest);
        assert(s.last() == ext.last());
    }
}

proof fn lemma_no_point(s: Seq<char>)
    requires
        !s.contains('.'),
    ensures
        last_point(s) is None,
    decreases s.len(),
{
    if s.len() > 0 {
        let rest = s.drop_last();
        assert(s.contains(s[s.len() - 1]));
        assert forall|c: char| rest.contains(c) implies s.contains(c) by {
            let k = choose|k: int| 0 <= k < rest.len() && rest[k] == c;
            assert(s[k] == c);
        }
        lemma_no_point(rest);
    }
}

/// On Unix a name stands behind its directory, with one slash between them; a rooted
/// name stands alone.
pub proof fn law_unix_join(base: Seq<char>, name: Seq<char>)
    ensures
        ({
            let path = Platform::Unix.join_of(base, name);
            &&& name.len() > 0 && name[0] == '/' ==> path == name
            &&& name.len() == 0 || name[0] != '/' ==> {
                &&& path.len() <= base.len() + 1 + name.len()
                &&& base.is_prefix_of(path) && path.skip(path.len() - name.len()) == name
                &&& base.len() > 0 ==> path[path.len() - name.len() - 1] == '/'
                &&& base.len() > 0 && base.last() == '/' || base.len() == 0 ==> path.len()
                    == base.len() + name.len()
            }
        }),
        Platform::Unix.absolute(name) <==> name.len() > 0 && name[0] == '/',
{
    reveal_strlit("/");
    let path = Platform::Unix.join_of(base, name);
    if !(name.len() > 0 && name[0] == '/') {
        assert(path.subrange(0, base.len() as int) == base);
        assert(path.skip(path.len() - name.len()) == name);
    }
}

} // verus!
