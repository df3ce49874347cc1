//! Checksum records: the persisted map from target to the content digest
//! of its sources, deciding whether a build may be skipped.  Computing a
//! digest walks the file tree and stays outside; the records take digests
//! as plain values and answer "changed since last recorded?".  Development
//! and production builds keep separate persisted files.

use vstd::prelude::*;
use vstd::string::StrSliceExecFns;
use crate::target::{all_targets, name_of, parse_target, rank, Target, TARGET_COUNT};

verus! {

/// The records: one optional stored digest per target, and the set of
/// targets touched in this run (their digests are persisted at shutdown).
#[derive(Debug)]
pub struct ChecksumRecords {
    /// Whether the production-scoped persisted file is used.
    pub production: bool,
    /// The stored digest of each target, by rank; `None` when absent or
    /// cleared by a clean.
    pub entries: Vec<Option<String>>,
    /// Whether each target, by rank, was registered in this run.
    pub touched: Vec<bool>,
}

/// The stored digest of a target, as a character sequence.
pub open spec fn stored_digest(r: ChecksumRecords, t: Target) -> Option<Seq<char>> {
    match r.entries@[rank(t)] {
        Some(d) => Some(d@),
        None => None,
    }
}

/// Whether a target counts as changed against a freshly computed digest:
/// changed when no digest is stored (first build, or cleared by a prior
/// clean), or when the stored digest differs from the current one.
pub open spec fn changed_spec(stored: Option<Seq<char>>, current: Seq<char>) -> bool {
    match stored {
        None => true,
        Some(d) => d != current,
    }
}

impl ChecksumRecords {
    /// One entry and one touched flag per target.
    pub open spec fn wf(self) -> bool {
        &&& self.entries@.len() == TARGET_COUNT
        &&& self.touched@.len() == TARGET_COUNT
    }

    /// Fresh records with no stored digests and nothing touched.
    pub fn new(production: bool) -> (r: ChecksumRecords)
        ensures
            r.wf(),
            r.production == production,
            forall|t: Target| stored_digest(r, t) is None,
            forall|i: int| 0 <= i < TARGET_COUNT ==> !(#[trigger] r.touched@[i]),
    {
        let mut entries: Vec<Option<String>> = Vec::new();
        let mut touched: Vec<bool> = Vec::new();
        let mut i: usize = 0;
        while i < TARGET_COUNT
            invariant
                i <= TARGET_COUNT,
                entries@.len() == i,
                touched@.len() == i,
                forall|j: int| 0 <= j < i ==> entries@[j] is None,
                forall|j: int| 0 <= j < i ==> !(#[trigger] touched@[j]),
            decreases TARGET_COUNT - i,
        {
            entries.push(None);
            touched.push(false);
            i += 1;
        }
        let r = ChecksumRecords { production, entries, touched };
        proof {
            assert forall|t: Target| stored_digest(r, t) is None by {
                assert(r.entries@[rank(t)] is None);
            }
        }
        r
    }

    /// The name of the persisted file this record set is scoped to:
    /// development and production builds must not contaminate each other.
    pub fn file_name(&self) -> (r: &'static str)
        ensures
            self.production ==> r@ == ".checksums_prod"@,
            !self.production ==> r@ == ".checksums_dev"@,
    {
        if self.production {
            ".checksums_prod"
        } else {
            ".checksums_dev"
        }
    }

    /// Mark a target as touched in this run.
    pub fn register_job(&mut self, t: Target)
        requires
            old(self).wf(),
        ensures
            final(self).wf(),
            final(self).production == old(self).production,
            final(self).entries == old(self).entries,
            final(self).touched@ == old(self).touched@.update(rank(t), true),
    {
        let idx = t.index();
        self.touched.set(idx, true);
    }

    /// Whether `t` counts as changed against the freshly computed digest
    /// `current`: true exactly when no digest is stored or the stored one
    /// differs.
    pub fn check_changed(&self, t: Target, current: &str) -> (r: bool)
        requires
            self.wf(),
        ensures
            r == changed_spec(stored_digest(*self, t), current@),
    {
        let idx = t.index();
        match &self.entries[idx] {
            None => true,
            Some(d) => !crate::target::str_eq(d.as_str(), current),
        }
    }

    /// Store the digest of a target, as recorded after a build.
    pub fn set_hash(&mut self, t: Target, digest: String)
        requires
            old(self).wf(),
        ensures
            final(self).wf(),
            final(self).production == old(self).production,
            final(self).touched == old(self).touched,
            final(self).entries@ == old(self).entries@.update(rank(t), Some(digest)),
            stored_digest(*final(self), t) == Some(digest@),
            forall|u: Target| rank(u) != rank(t) ==> stored_digest(*final(self), u)
                == stored_digest(*old(self), u),
    {
        let idx = t.index();
        self.entries.set(idx, Some(digest));
    }

    /// Clear the stored digest of a target, as a clean or reset does; the
    /// next build of the target then counts as changed.  Returns whether an
    /// entry existed: clearing twice in a row removes nothing the second
    /// time.
    pub fn remove_hash_if_exist(&mut self, t: Target) -> (existed: bool)
        requires
            old(self).wf(),
        ensures
            final(self).wf(),
            final(self).production == old(self).production,
            final(self).touched == old(self).touched,
            existed == (stored_digest(*old(self), t) is Some),
            final(self).entries@ == old(self).entries@.update(rank(t), None),
            stored_digest(*final(self), t) is None,
            forall|u: Target| rank(u) != rank(t) ==> stored_digest(*final(self), u)
                == stored_digest(*old(self), u),
    {
        let idx = t.index();
        let existed = self.entries[idx].is_some();
        self.entries.set(idx, None);
        existed
    }
}

/// The skip-invalidation law: after a clean cleared a target's entry, a
/// later check against any freshly computed digest reports the target as
/// changed, so its next build is not skipped.
pub proof fn lemma_skip_invalidation(r: ChecksumRecords, t: Target, current: Seq<char>)
    requires
        stored_digest(r, t) is None,
    ensures
        changed_spec(stored_digest(r, t), current),
{
}

/// The clean-idempotence law on the records: clearing an already absent
/// entry changes nothing and reports that nothing existed.
pub proof fn lemma_clear_idempotent(r: ChecksumRecords, t: Target)
    requires
        r.wf(),
        stored_digest(r, t) is None,
    ensures
        !(stored_digest(r, t) is Some),
        r.entries@.update(rank(t), None) == r.entries@,
{
    assert(r.entries@.update(rank(t), None) =~= r.entries@);
}

/// One persisted line: the target name, one space, the digest, a newline.
pub open spec fn render_entry(t: Target, d: Seq<char>) -> Seq<char> {
    name_of(t) + " "@ + d + "\n"@
}

/// The persisted text from rank `i` on: one line per stored entry, in
/// scheduling order.
pub open spec fn render_records(entries: Seq<Option<String>>, i: int) -> Seq<char>
    decreases TARGET_COUNT - i,
{
    if i < 0 || i >= TARGET_COUNT {
        Seq::empty()
    } else {
        (match entries[i] {
            Some(d) => render_entry(all_targets()[i], d@),
            None => Seq::<char>::empty(),
        }) + render_records(entries, i + 1)
    }
}

impl ChecksumRecords {
    /// The full persisted text of the records.
    pub fn serialize(&self) -> (r: String)
        requires
            self.wf(),
        ensures
            r@ == render_records(self.entries@, 0),
    {
        let mut s = String::new();
        let targets = Target::all();
        let mut i: usize = 0;
        while i < TARGET_COUNT
            invariant
                self.wf(),
                targets@ == all_targets(),
                i <= TARGET_COUNT,
                s@ + render_records(self.entries@, i as int) == render_records(self.entries@, 0),
            decreases TARGET_COUNT - i,
        {
            let ghost pre = s@;
            match &self.entries[i] {
                Some(d) => {
                    s.append(targets[i].name());
                    s.append(" ");
                    s.append(d.as_str());
                    s.append("\n");
                    proof {
                        let entry = self.entries@[i as int];
                        assert(s@ =~= pre + render_entry(all_targets()[i as int], entry->Some_0@));
                    }
                }
                None => {}
            }
            proof {
                assert(s@ + render_records(self.entries@, i + 1) =~= pre + render_records(
                    self.entries@,
                    i as int,
                ));
            }
            i += 1;
        }
        s
    }
}

/// Parses one persisted line (without its newline): the exact-match target
/// name before the first space, the digest after it.  Returns nothing
/// exactly when the line has no space or names no target.
pub fn parse_line(line: &str) -> (r: Option<(Target, String)>)
    ensures
        r matches Some((t, d)) ==> line@ == name_of(t) + " "@ + d@,
        r is None ==> forall|t: Target, d: Seq<char>| line@ != name_of(t) + " "@ + d,
{
    let n = line.unicode_len();
    let mut i: usize = 0;
    while i < n
        invariant
            n == line@.len(),
            i <= n,
            forall|j: int| 0 <= j < i ==> line@[j] != ' ',
        decreases n - i,
    {
        if line.get_char(i) == ' ' {
            let name_part = line.substring_char(0, i);
            let digest_part = line.substring_char(i + 1, n);
            match parse_target(name_part) {
                Some(t) => {
                    let d = digest_part.to_owned();
                    proof {
                        reveal_strlit(" ");
                        assert(line@ =~= name_of(t) + " "@ + d@);
                    }
                    return Some((t, d));
                }
                None => {
                    proof {
                        reveal_strlit(" ");
                        assert forall|t: Target, d: Seq<char>| line@ != name_of(t) + " "@ + d by {
                            if line@ == name_of(t) + " "@ + d {
                                lemma_name_has_no_space(t);
                                if name_of(t).len() < i {
                                    assert(line@[name_of(t).len() as int] == ' ');
                                } else if name_of(t).len() > i {
                                    assert(line@[i as int] == ' ');
                                    assert(name_of(t)[i as int] == ' ');
                                } else {
                                    assert(name_part@ =~= name_of(t));
                                }
                            }
                        }
                    }
                    return None;
                }
            }
        }
        i += 1;
    }
    proof {
        reveal_strlit(" ");
        assert forall|t: Target, d: Seq<char>| line@ != name_of(t) + " "@ + d by {
            if line@ == name_of(t) + " "@ + d {
                assert(line@[name_of(t).len() as int] == ' ');
            }
        }
    }
    None
}

/// No target name contains a space.
proof fn lemma_name_has_no_space(t: Target)
    ensures
        forall|j: int| 0 <= j < name_of(t).len() ==> name_of(t)[j] != ' ',
{
    reveal_strlit("Core");
    reveal_strlit("Shared");
    reveal_strlit("Binding");
    reveal_strlit("Wrapper");
    reveal_strlit("Wasm");
    reveal_strlit("Client");
    reveal_strlit("Updater");
    reveal_strlit("App");
    reveal_strlit("Cli");
}

/// The position of the first newline of a text, or its length.
pub open spec fn first_newline(s: Seq<char>) -> int
    decreases s.len(),
{
    if s.len() == 0 {
        0
    } else if s[0] == '\n' {
        0
    } else {
        1 + first_newline(s.drop_first())
    }
}

/// The first newline is characterised by the characters before and at it.
proof fn lemma_first_newline_is(s: Seq<char>, i: int)
    requires
        0 <= i <= s.len(),
        forall|j: int| 0 <= j < i ==> s[j] != '\n',
        i < s.len() ==> s[i] == '\n',
    ensures
        first_newline(s) == i,
    decreases s.len(),
{
    if s.len() == 0 {
    } else if s[0] == '\n' {
        assert(i == 0);
    } else {
        assert(i >= 1);
        let rest = s.drop_first();
        assert forall|j: int| 0 <= j < i - 1 implies rest[j] != '\n' by {
            assert(rest[j] == s[j + 1]);
        }
        if i - 1 < rest.len() {
            assert(rest[i - 1] == s[i]);
        }
        lemma_first_newline_is(rest, i - 1);
    }
}

/// The lines of a text, split at the newlines; a trailing fragment without
/// a newline is a line too, and an empty text has none.
pub open spec fn split_lines(s: Seq<char>) -> Seq<Seq<char>>
    decreases s.len(),
{
    if s.len() == 0 {
        Seq::empty()
    } else {
        let i = first_newline(s);
        if 0 <= i < s.len() {
            seq![s.subrange(0, i)] + split_lines(s.subrange(i + 1, s.len() as int))
        } else {
            seq![s]
        }
    }
}

/// What one persisted line contributes: its unique decomposition into a
/// target name, one space, and a digest, if the line has one.
pub open spec fn line_entry(line: Seq<char>) -> Option<(Target, Seq<char>)> {
    if exists|t: Target, d: Seq<char>| line == name_of(t) + " "@ + d {
        Some(choose|t: Target, d: Seq<char>| line == name_of(t) + " "@ + d)
    } else {
        None
    }
}

/// Distinct targets have distinct names.
proof fn lemma_name_injective(t1: Target, t2: Target)
    requires
        name_of(t1) == name_of(t2),
    ensures
        t1 == t2,
{
    reveal_strlit("Core");
    reveal_strlit("Shared");
    reveal_strlit("Binding");
    reveal_strlit("Wrapper");
    reveal_strlit("Wasm");
    reveal_strlit("Client");
    reveal_strlit("Updater");
    reveal_strlit("App");
    reveal_strlit("Cli");
    if t1 != t2 {
        match (t1, t2) {
        (Target::Core, Target::Core) => {
                assert(false);
            }
        (Target::Core, Target::Shared) => {
                assert("Core"@.len() != "Shared"@.len());
            }
        (Target::Core, Target::Binding) => {
                assert("Core"@.len() != "Binding"@.len());
            }
        (Target::Core, Target::Wrapper) => {
                assert("Core"@.len() != "Wrapper"@.len());
            }
        (Target::Core, Target::Wasm) => {
                assert("Core"@[0] != "Wasm"@[0]);
            }
        (Target::Core, Target::Client) => {
                assert("Core"@.len() != "Client"@.len());
            }
        (Target::Core, Target::Updater) => {
                assert("Core"@.len() != "Updater"@.len());
            }
        (Target::Core, Target::App) => {
                assert("Core"@.len() != "App"@.len());
            }
        (Target::Core, Target::Cli) => {
                assert("Core"@.len() != "Cli"@.len());
            }
        (Target::Shared, Target::Core) => {
                assert("Shared"@.len() != "Core"@.len());
            }
        (Target::Shared, Target::Shared) => {
                assert(false);
            }
        (Target::Shared, Target::Binding) => {
                assert("Shared"@.len() != "Binding"@.len());
            }
        (Target::Shared, Target::Wrapper) => {
                assert("Shared"@.len() != "Wrapper"@.len());
            }
        (Target::Shared, Target::Wasm) => {
                assert("Shared"@.len() != "Wasm"@.len());
            }
        (Target::Shared, Target::Client) => {
                assert("Shared"@[0] != "Client"@[0]);
            }
        (Target::Shared, Target::Updater) => {
                assert("Shared"@.len() != "Updater"@.len());
            }
        (Target::Shared, Target::App) => {
                assert("Shared"@.len() != "App"@.len());
            }
        (Target::Shared, Target::Cli) => {
                assert("Shared"@.len() != "Cli"@.len());
            }
        (Target::Binding, Target::Core) => {
                assert("Binding"@.len() != "Core"@.len());
            }
        (Target::Binding, Target::Shared) => {
                assert("Binding"@.len() != "Shared"@.len());
            }
        (Target::Binding, Target::Binding) => {
                assert(false);
            }
        (Target::Binding, Target::Wrapper) => {
                assert("Binding"@[0] != "Wrapper"@[0]);
            }
        (Target::Binding, Target::Wasm) => {
                assert("Binding"@.len() != "Wasm"@.len());
            }
        (Target::Binding, Target::Client) => {
                assert("Binding"@.len() != "Client"@.len());
            }
        (Target::Binding, Target::Updater) => {
                assert("Binding"@[0] != "Updater"@[0]);
            }
        (Target::Binding, Target::App) => {
                assert("Binding"@.len() != "App"@.len());
            }
        (Target::Binding, Target::Cli) => {
                assert("Binding"@.len() != "Cli"@.len());
            }
        (Target::Wrapper, Target::Core) => {
                assert("Wrapper"@.len() != "Core"@.len());
            }
        (Target::Wrapper, Target::Shared) => {
                assert("Wrapper"@.len() != "Shared"@.len());
            }
        (Target::Wrapper, Target::Binding) => {
                assert("Wrapper"@[0] != "Binding"@[0]);
            }
        (Target::Wrapper, Target::Wrapper) => {
                assert(false);
            }
        (Target::Wrapper, Target::Wasm) => {
                assert("Wrapper"@.len() != "Wasm"@.len());
            }
        (Target::Wrapper, Target::Client) => {
                assert("Wrapper"@.len() != "Client"@.len());
            }
        (Target::Wrapper, Target::Updater) => {
                assert("Wrapper"@[0] != "Updater"@[0]);
            }
        (Target::Wrapper, Target::App) => {
                assert("Wrapper"@.len() != "App"@.len());
            }
        (Target::Wrapper, Target::Cli) => {
                assert("Wrapper"@.len() != "Cli"@.len());
            }
        (Target::Wasm, Target::Core) => {
                assert("Wasm"@[0] != "Core"@[0]);
            }
        (Target::Wasm, Target::Shared) => {
                assert("Wasm"@.len() != "Shared"@.len());
            }
        (Target::Wasm, Target::Binding) => {
                assert("Wasm"@.len() != "Binding"@.len());
            }
        (Target::Wasm, Target::Wrapper) => {
                assert("Wasm"@.len() != "Wrapper"@.len());
            }
        (Target::Wasm, Target::Wasm) => {
                assert(false);
            }
        (Target::Wasm, Target::Client) => {
                assert("Wasm"@.len() != "Client"@.len());
            }
        (Target::Wasm, Target::Updater) => {
                assert("Wasm"@.len() != "Updater"@.len());
            }
        (Target::Wasm, Target::App) => {
                assert("Wasm"@.len() != "App"@.len());
            }
        (Target::Wasm, Target::Cli) => {
                assert("Wasm"@.len() != "Cli"@.len());
            }
        (Target::Client, Target::Core) => {
                assert("Client"@.len() != "Core"@.len());
            }
        (Target::Client, Target::Shared) => {
                assert("Client"@[0] != "Shared"@[0]);
            }
        (Target::Client, Target::Binding) => {
                assert("Client"@.len() != "Binding"@.len());
            }
        (Target::Client, Target::Wrapper) => {
                assert("Client"@.len() != "Wrapper"@.len());
            }
        (Target::Client, Target::Wasm) => {
                assert("Client"@.len() != "Wasm"@.len());
            }
        (Target::Client, Target::Client) => {
                assert(false);
            }
        (Target::Client, Target::Updater) => {
                assert("Client"@.len() != "Updater"@.len());
            }
        (Target::Client, Target::App) => {
                assert("Client"@.len() != "App"@.len());
            }
        (Target::Client, Target::Cli) => {
                assert("Client"@.len() != "Cli"@.len());
            }
        (Target::Updater, Target::Core) => {
                assert("Updater"@.len() != "Core"@.len());
            }
        (Target::Updater, Target::Shared) => {
                assert("Updater"@.len() != "Shared"@.len());
            }
        (Target::Updater, Target::Binding) => {
                assert("Updater"@[0] != "Binding"@[0]);
            }
        (Target::Updater, Target::Wrapper) => {
                assert("Updater"@[0] != "Wrapper"@[0]);
            }
        (Target::Updater, Target::Wasm) => {
                assert("Updater"@.len() != "Wasm"@.len());
            }
        (Target::Updater, Target::Client) => {
                assert("Updater"@.len() != "Client"@.len());
            }
        (Target::Updater, Target::Updater) => {
                assert(false);
            }
        (Target::Updater, Target::App) => {
                assert("Updater"@.len() != "App"@.len());
            }
        (Target::Updater, Target::Cli) => {
                assert("Updater"@.len() != "Cli"@.len());
            }
        (Target::App, Target::Core) => {
                assert("App"@.len() != "Core"@.len());
            }
        (Target::App, Target::Shared) => {
                assert("App"@.len() != "Shared"@.len());
            }
        (Target::App, Target::Binding) => {
                assert("App"@.len() != "Binding"@.len());
            }
        (Target::App, Target::Wrapper) => {
                assert("App"@.len() != "Wrapper"@.len());
            }
        (Target::App, Target::Wasm) => {
                assert("App"@.len() != "Wasm"@.len());
            }
        (Target::App, Target::Client) => {
                assert("App"@.len() != "Client"@.len());
            }
        (Target::App, Target::Updater) => {
                assert("App"@.len() != "Updater"@.len());
            }
        (Target::App, Target::App) => {
                assert(false);
            }
        (Target::App, Target::Cli) => {
                assert("App"@[0] != "Cli"@[0]);
            }
        (Target::Cli, Target::Core) => {
                assert("Cli"@.len() != "Core"@.len());
            }
        (Target::Cli, Target::Shared) => {
                assert("Cli"@.len() != "Shared"@.len());
            }
        (Target::Cli, Target::Binding) => {
                assert("Cli"@.len() != "Binding"@.len());
            }
        (Target::Cli, Target::Wrapper) => {
                assert("Cli"@.len() != "Wrapper"@.len());
            }
        (Target::Cli, Target::Wasm) => {
                assert("Cli"@.len() != "Wasm"@.len());
            }
        (Target::Cli, Target::Client) => {
                assert("Cli"@.len() != "Client"@.len());
            }
        (Target::Cli, Target::Updater) => {
                assert("Cli"@.len() != "Updater"@.len());
            }
        (Target::Cli, Target::App) => {
                assert("Cli"@[0] != "App"@[0]);
            }
        (Target::Cli, Target::Cli) => {
                assert(false);
            }
        }
    }
}

/// A line decomposes into a name, a space and a digest in at most one way:
/// the name runs to the first space, and names are unique.
proof fn lemma_decomposition_unique(
    line: Seq<char>,
    t1: Target,
    d1: Seq<char>,
    t2: Target,
    d2: Seq<char>,
)
    requires
        line == name_of(t1) + " "@ + d1,
        line == name_of(t2) + " "@ + d2,
    ensures
        t1 == t2,
        d1 == d2,
{
    reveal_strlit(" ");
    lemma_name_has_no_space(t1);
    lemma_name_has_no_space(t2);
    let n1 = name_of(t1).len() as int;
    let n2 = name_of(t2).len() as int;
    assert(line.len() == n1 + 1 + d1.len());
    assert(line.len() == n2 + 1 + d2.len());
    assert(line[n1] == ' ');
    assert(line[n2] == ' ');
    if n1 < n2 {
        assert(line[n1] == name_of(t2)[n1]);
        assert(false);
    }
    if n2 < n1 {
        assert(line[n2] == name_of(t1)[n2]);
        assert(false);
    }
    assert(n1 == n2);
    assert(d1.len() == d2.len());
    assert forall|j: int| 0 <= j < n1 implies name_of(t1)[j] == name_of(t2)[j] by {
        assert(name_of(t1)[j] == line[j]);
        assert(name_of(t2)[j] == line[j]);
    }
    assert(name_of(t1) =~= name_of(t2));
    lemma_name_injective(t1, t2);
    assert forall|j: int| 0 <= j < d1.len() implies d1[j] == d2[j] by {
        assert(line[n1 + 1 + j] == d1[j]);
        assert(line[n2 + 1 + j] == d2[j]);
    }
    assert(d1 =~= d2);
}

/// The digest the persisted lines give a target: the last well-formed line
/// naming it wins; absent when none does.
pub open spec fn digest_from_lines(lines: Seq<Seq<char>>, t: Target) -> Option<Seq<char>>
    decreases lines.len(),
{
    if lines.len() == 0 {
        None
    } else {
        match line_entry(lines.last()) {
            Some((u, d)) => if u == t {
                Some(d)
            } else {
                digest_from_lines(lines.drop_last(), t)
            },
            None => digest_from_lines(lines.drop_last(), t),
        }
    }
}

/// Peeling the first line off: later lines override it.
proof fn lemma_digest_from_lines_cons(line: Seq<char>, rest: Seq<Seq<char>>, t: Target)
    ensures
        digest_from_lines(seq![line] + rest, t) == match digest_from_lines(rest, t) {
            Some(d) => Some(d),
            None => match line_entry(line) {
                Some((u, d)) => if u == t {
                    Some(d)
                } else {
                    None::<Seq<char>>
                },
                None => None::<Seq<char>>,
            },
        },
    decreases rest.len(),
{
    let all = seq![line] + rest;
    if rest.len() == 0 {
        assert(all =~= seq![line]);
        assert(all.last() == line);
        assert(all.drop_last() =~= Seq::<Seq<char>>::empty());
    } else {
        assert(all.last() == rest.last());
        assert(all.drop_last() =~= seq![line] + rest.drop_last());
        lemma_digest_from_lines_cons(line, rest.drop_last(), t);
    }
}

/// Applies every line of a text to the records, first line first, so that
/// the last well-formed line naming a target wins.
fn apply_lines(records: &mut ChecksumRecords, content: &str)
    requires
        old(records).wf(),
    ensures
        final(records).wf(),
        final(records).production == old(records).production,
        final(records).touched == old(records).touched,
        forall|t: Target|
            stored_digest(*final(records), t) == match digest_from_lines(
                split_lines(content@),
                t,
            ) {
                Some(d) => Some(d),
                None => stored_digest(*old(records), t),
            },
    decreases content@.len(),
{
    let n = content.unicode_len();
    if n == 0 {
        proof {
            assert(split_lines(content@) == Seq::<Seq<char>>::empty());
        }
        return;
    }
    let mut i: usize = 0;
    while i < n && content.get_char(i) != '\n'
        invariant
            n == content@.len(),
            i <= n,
            forall|j: int| 0 <= j < i ==> content@[j] != '\n',
        decreases n - i,
    {
        i += 1;
    }
    proof {
        lemma_first_newline_is(content@, i as int);
    }
    let line = content.substring_char(0, i);
    let parsed = parse_line(line);
    let ghost mid = *records;
    match parsed {
        Some((t, d)) => {
            let ghost dv = d@;
            records.set_hash(t, d);
            proof {
                assert(line_entry(line@) matches Some((u, e)) && u == t && e == dv) by {
                    assert(line@ == name_of(t) + " "@ + dv);
                    let (u, e) = choose|u: Target, e: Seq<char>|
                        line@ == name_of(u) + " "@ + e;
                    lemma_decomposition_unique(line@, t, dv, u, e);
                }
            }
        }
        None => {
            proof {
                assert(line_entry(line@) is None);
            }
        }
    }
    let ghost after_line = *records;
    if i < n {
        let rest = content.substring_char(i + 1, n);
        apply_lines(records, rest);
        proof {
            assert(rest@ == content@.subrange(i + 1, n as int));
            assert(split_lines(content@) == seq![content@.subrange(0, i as int)] + split_lines(
                rest@,
            ));
            assert forall|t: Target|
                stored_digest(*records, t) == match digest_from_lines(
                    split_lines(content@),
                    t,
                ) {
                    Some(d) => Some(d),
                    None => stored_digest(*old(records), t),
                } by {
                lemma_digest_from_lines_cons(line@, split_lines(rest@), t);
            }
        }
    } else {
        proof {
            assert(split_lines(content@) =~= seq![content@]);
            assert(line@ == content@);
            assert forall|t: Target|
                stored_digest(*records, t) == match digest_from_lines(
                    split_lines(content@),
                    t,
                ) {
                    Some(d) => Some(d),
                    None => stored_digest(*old(records), t),
                } by {
                lemma_digest_from_lines_cons(line@, Seq::<Seq<char>>::empty(), t);
                assert(seq![line@] + Seq::<Seq<char>>::empty() =~= split_lines(content@));
            }
        }
    }
}

/// Loads records from persisted text: the stored digest of every target is
/// exactly what the last well-formed line naming it gives; malformed lines
/// contribute nothing, as a foreign or damaged file must not wedge the
/// tool.
pub fn load_records(production: bool, content: &str) -> (r: ChecksumRecords)
    ensures
        r.wf(),
        r.production == production,
        forall|t: Target|
            stored_digest(r, t) == digest_from_lines(split_lines(content@), t),
{
    let mut records = ChecksumRecords::new(production);
    apply_lines(&mut records, content);
    records
}

} // verus!
