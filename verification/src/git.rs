//! Decisions of the churn analysis of a file's history.
//!
//! Walking a repository's history is left to the caller, which hands each
//! commit to a [`ChurnTally`].
use vstd::prelude::*;
use crate::metrics::ChurnMetrics;
use crate::text::{contains_word, has_word, is_word_char, str_eq, word_at};

verus! {

/// The Unicode lowercase mapping of a text.
pub uninterp spec fn unicode_lowercase(text: Seq<char>) -> Seq<char>;

/// `str::to_lowercase`: the text with every character replaced by its
/// Unicode lowercase mapping.  The mapping is named, not written out.
#[verifier::external_body]
fn to_lowercase(text: &str) -> (r: String)
    ensures
        r@ == unicode_lowercase(text@),
{
    text.to_lowercase()
}

/// A commit message that reports a fix: lowercased, it holds one of the
/// words `fix`, `fixes`, `fixed`, `bug`, `bugs` or `bugfix` as a whole word.
pub open spec fn is_bug_fix_text(message: Seq<char>) -> bool {
    let lower = unicode_lowercase(message);
    ||| has_word(lower, "fix"@)
    ||| has_word(lower, "fixes"@)
    ||| has_word(lower, "fixed"@)
    ||| has_word(lower, "bug"@)
    ||| has_word(lower, "bugs"@)
    ||| has_word(lower, "bugfix"@)
}

/// Whether a commit touches a file: `file_path` is, as a whole, one of the
/// paths that the commit changed.
pub open spec fn touches_file(changed_paths: Seq<Seq<char>>, file_path: Seq<char>) -> bool {
    exists|i: int| 0 <= i < changed_paths.len() && #[trigger] changed_paths[i] == file_path
}

/// A commit message reports a fix exactly where its lowercased text holds
/// one of the words `fix`, `fixes`, `fixed`, `bug`, `bugs` or `bugfix`
/// standing alone: not preceded or followed by a letter, a digit, `_` or a
/// character beyond ASCII.
pub proof fn lemma_bug_fix_words(message: Seq<char>)
    ensures
        is_bug_fix_text(message) <==> exists|w: Seq<char>, i: int|
            (w == "fix"@ || w == "fixes"@ || w == "fixed"@ || w == "bug"@ || w == "bugs"@ || w == "bugfix"@)
            && 0 <= i && i + w.len() <= unicode_lowercase(message).len()
            && #[trigger] unicode_lowercase(message).subrange(i, i + w.len()) == w
            && (i == 0 || !is_word_char(unicode_lowercase(message)[i - 1]))
            && (i + w.len() == unicode_lowercase(message).len() || !is_word_char(
                unicode_lowercase(message)[i + w.len()],
            )),
{
    let lower = unicode_lowercase(message);
    if is_bug_fix_text(message) {
        let words = seq!["fix"@, "fixes"@, "fixed"@, "bug"@, "bugs"@, "bugfix"@];
        assert(exists|k: int| 0 <= k < 6 && has_word(lower, words[k]));
        let k = choose|k: int| 0 <= k < 6 && has_word(lower, words[k]);
        let w = words[k];
        let i = choose|i: int| word_at(lower, w, i);
        assert(lower.subrange(i, i + w.len()) == w);
    } else {
        assert forall|w: Seq<char>, i: int|
            (w == "fix"@ || w == "fixes"@ || w == "fixed"@ || w == "bug"@ || w == "bugs"@ || w == "bugfix"@)
            && 0 <= i && i + w.len() <= lower.len()
            && #[trigger] lower.subrange(i, i + w.len()) == w
            && (i == 0 || !is_word_char(lower[i - 1]))
            && (i + w.len() == lower.len() || !is_word_char(lower[i + w.len()])) implies false by {
            assert(word_at(lower, w, i));
        }
    }
}

/// Analyses the history of files.
pub struct GitAnalyzer;

impl GitAnalyzer {
    /// Whether a commit message reports a fix.
    pub fn is_bug_fix_message(message: &str) -> (r: bool)
        ensures
            r == is_bug_fix_text(message@),
    {
        let lower = to_lowercase(message);
        let text = lower.as_str();
        contains_word(text, "fix") || contains_word(text, "fixes") || contains_word(text, "fixed")
            || contains_word(text, "bug") || contains_word(text, "bugs") || contains_word(text, "bugfix")
    }

    /// Whether a commit that changed the paths `changed_paths` modified
    /// `file_path`: the path must be one of them as a whole.
    pub fn file_modified_in_commit(changed_paths: &Vec<String>, file_path: &str) -> (r: bool)
        ensures
            r == touches_file(changed_paths@.map_values(|p: String| p@), file_path@),
    {
        let ghost paths = changed_paths@.map_values(|p: String| p@);
        let mut i: usize = 0;
        while i < changed_paths.len()
            invariant
                paths == changed_paths@.map_values(|p: String| p@),
                i <= changed_paths@.len(),
                forall|k: int| 0 <= k < i ==> #[trigger] paths[k] != file_path@,
            decreases changed_paths@.len() - i,
        {
            if str_eq(changed_paths[i].as_str(), file_path) {
                assert(paths[i as int] == file_path@);
                return true;
            }
            i = i + 1;
        }
        false
    }
}

/// What a tally has counted: the commits that modified the file, those of
/// them that report a fix, and the names of their authors.
pub struct TallyView {
    pub times_modified: nat,
    pub bug_fix_commits: nat,
    pub authors: Set<Seq<char>>,
}

/// The churn of one file, counted commit by commit.
pub struct ChurnTally {
    times_modified: usize,
    bug_fix_commits: usize,
    authors: Vec<String>,
}

impl View for ChurnTally {
    type V = TallyView;

    closed spec fn view(&self) -> TallyView {
        TallyView {
            times_modified: self.times_modified as nat,
            bug_fix_commits: self.bug_fix_commits as nat,
            authors: self.authors@.map_values(|a: String| a@).to_set(),
        }
    }
}

impl ChurnTally {
    #[verifier::type_invariant]
    closed spec fn inv(&self) -> bool {
        &&& self.authors@.map_values(|a: String| a@).no_duplicates()
        &&& self.bug_fix_commits <= self.times_modified
        &&& self.authors@.len() <= self.times_modified
    }

    /// A tally of no commits.
    pub fn new() -> (t: Self)
        ensures
            t@.times_modified == 0,
            t@.bug_fix_commits == 0,
            t@.authors == Set::<Seq<char>>::empty(),
            t@.authors.finite(),
    {
        let t = ChurnTally { times_modified: 0, bug_fix_commits: 0, authors: Vec::new() };
        assert(t@.authors =~= Set::<Seq<char>>::empty());
        t
    }

    /// Counts one commit of the history: where it modified the file, one more
    /// modification, its author among the authors, and one more fix where its
    /// message reports one.
    pub fn record_commit(&mut self, modified: bool, author: Option<&str>, message: Option<&str>)
        requires
            modified ==> old(self)@.times_modified < usize::MAX,
        ensures
            !modified ==> final(self)@ == old(self)@,
            modified ==> final(self)@.times_modified == old(self)@.times_modified + 1,
            modified ==> final(self)@.authors == match author {
                Some(a) => old(self)@.authors.insert(a@),
                None => old(self)@.authors,
            },
            modified ==> final(self)@.bug_fix_commits == old(self)@.bug_fix_commits + match message {
                Some(m) => if is_bug_fix_text(m@) { 1int } else { 0int },
                None => 0int,
            },
            final(self)@.bug_fix_commits <= final(self)@.times_modified,
            final(self)@.authors.finite(),
            final(self)@.authors.len() <= final(self)@.times_modified,
    {
        proof {
            use_type_invariant(&*self);
        }
        if !modified {
            proof {
                self.authors@.map_values(|a: String| a@).unique_seq_to_set();
            }
            return;
        }
        let mut authors: Vec<String> = Vec::new();
        std::mem::swap(&mut authors, &mut self.authors);
        let ghost old_authors = authors@;
        if let Some(a) = author {
            let mut i: usize = 0;
            let mut known = false;
            while i < authors.len()
                invariant
                    authors@ == old_authors,
                    i <= authors@.len(),
                    known <==> exists|k: int| 0 <= k < i && (#[trigger] authors@[k])@ == a@,
                decreases authors@.len() - i,
            {
                if str_eq(authors[i].as_str(), a) {
                    known = true;
                }
                i = i + 1;
            }
            if !known {
                authors.push(String::from_str(a));
                proof {
                    let before = old_authors.map_values(|s: String| s@);
                    assert(authors@.map_values(|s: String| s@) =~= before.push(a@));
                    assert(!before.contains(a@)) by {
                        if before.contains(a@) {
                            let k = choose|k: int| 0 <= k < before.len() && before[k] == a@;
                            assert(old_authors[k]@ == a@);
                        }
                    }
                    assert(before.push(a@).to_set() =~= before.to_set().insert(a@)) by {
                        assert forall|x: Seq<char>| before.push(a@).contains(x) <==> before.contains(x) || x == a@ by {
                            if before.push(a@).contains(x) && x != a@ {
                                let k = choose|k: int| 0 <= k < before.len() + 1 && before.push(a@)[k] == x;
                                assert(before[k] == x);
                            }
                            if before.contains(x) {
                                let k = choose|k: int| 0 <= k < before.len() && before[k] == x;
                                assert(before.push(a@)[k] == x);
                            }
                            if x == a@ {
                                assert(before.push(a@)[before.len() as int] == x);
                            }
                        }
                    }
                }
            } else {
                proof {
                    let before = old_authors.map_values(|s: String| s@);
                    let k = choose|k: int| 0 <= k < old_authors.len() && (#[trigger] old_authors[k])@ == a@;
                    assert(before[k] == a@);
                    assert(before.to_set().insert(a@) =~= before.to_set());
                }
            }
        }
        let mut bug_fix = self.bug_fix_commits;
        if let Some(m) = message {
            if GitAnalyzer::is_bug_fix_message(m) {
                bug_fix = bug_fix + 1;
            }
        }
        *self = ChurnTally { times_modified: self.times_modified + 1, bug_fix_commits: bug_fix, authors };
        proof {
            use_type_invariant(&*self);
            self.authors@.map_values(|a: String| a@).unique_seq_to_set();
        }
    }

    /// The churn metrics counted so far: the number of distinct authors is
    /// the number of authors counted.
    pub fn finish(&self) -> (m: ChurnMetrics)
        ensures
            m.times_modified == self@.times_modified,
            m.bug_fix_commits == self@.bug_fix_commits,
            m.authors_count == self@.authors.len(),
            m.bug_fix_commits <= m.times_modified,
            m.authors_count <= m.times_modified,
    {
        proof {
            use_type_invariant(self);
            self.authors@.map_values(|a: String| a@).unique_seq_to_set();
        }
        ChurnMetrics {
            times_modified: self.times_modified,
            bug_fix_commits: self.bug_fix_commits,
            authors_count: self.authors.len(),
        }
    }

}

/// One commit of a history, as the churn analysis reads it: the paths it
/// changed (for a commit with parents, the new paths of its diff against its
/// first parent; for a root commit, the paths it adds), its author's name and
/// its message, where they are known.
pub struct CommitRecord {
    pub changed_paths: Vec<String>,
    pub author: Option<String>,
    pub message: Option<String>,
}

/// Whether a commit modified `file`.
pub open spec fn commit_touches(c: CommitRecord, file: Seq<char>) -> bool {
    touches_file(c.changed_paths@.map_values(|p: String| p@), file)
}

/// What a history tells of `file`: the commits that modified it, those of
/// them whose message reports a fix, and the names of their authors.
pub open spec fn history_churn(commits: Seq<CommitRecord>, file: Seq<char>) -> TallyView
    decreases commits.len(),
{
    if commits.len() == 0 {
        TallyView { times_modified: 0, bug_fix_commits: 0, authors: Set::empty() }
    } else {
        let before = history_churn(commits.drop_last(), file);
        let c = commits.last();
        if commit_touches(c, file) {
            TallyView {
                times_modified: before.times_modified + 1,
                bug_fix_commits: before.bug_fix_commits + match c.message {
                    Some(m) => if is_bug_fix_text(m@) { 1nat } else { 0nat },
                    None => 0nat,
                },
                authors: match c.author {
                    Some(a) => before.authors.insert(a@),
                    None => before.authors,
                },
            }
        } else {
            before
        }
    }
}

impl GitAnalyzer {
    /// The churn of `file_path` over a history: the commits that modified it,
    /// those of them that report a fix, and the number of distinct authors
    /// among them.
    pub fn churn_of_history(commits: &Vec<CommitRecord>, file_path: &str) -> (m: ChurnMetrics)
        ensures
            m.times_modified == history_churn(commits@, file_path@).times_modified,
            m.bug_fix_commits == history_churn(commits@, file_path@).bug_fix_commits,
            m.authors_count == history_churn(commits@, file_path@).authors.len(),
    {
        let mut tally = ChurnTally::new();
        let mut i: usize = 0;
        assert(commits@.take(0) =~= Seq::<CommitRecord>::empty());
        while i < commits.len()
            invariant
                i <= commits@.len(),
                tally@ == history_churn(commits@.take(i as int), file_path@),
                tally@.times_modified <= i,
            decreases commits@.len() - i,
        {
            let c = &commits[i];
            let modified = GitAnalyzer::file_modified_in_commit(&c.changed_paths, file_path);
            let author: Option<&str> = match &c.author {
                Some(a) => Some(a.as_str()),
                None => None,
            };
            let message: Option<&str> = match &c.message {
                Some(m) => Some(m.as_str()),
                None => None,
            };
            tally.record_commit(modified, author, message);
            assert(commits@.take(i + 1).drop_last() =~= commits@.take(i as int));
            i = i + 1;
        }
        assert(commits@.take(i as int) =~= commits@);
        tally.finish()
    }
}

} // verus!
