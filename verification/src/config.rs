//! Parser configuration: the ordered TODO keyword set, its done subset, the
//! archive-tag, footnote-section and comment-marker literals, the odd-level
//! folding flag and the inline-task bounds. A configuration is validated
//! once at construction; parsing itself never re-validates it.

use vstd::prelude::*;

use crate::scan::{is_blank, is_tag_byte};
use crate::scan::bytes_eq;
use crate::types::{ConfigError, TodoKeyword, TodoType};

verus! {

/// Mathematical view of a configuration: every literal as a byte sequence.
pub ghost struct ConfigV {
    pub todo_keywords: Seq<Seq<u8>>,
    pub done_keywords: Seq<Seq<u8>>,
    pub archive_tag: Seq<u8>,
    pub footnote_section: Option<Seq<u8>>,
    pub comment_marker: Seq<u8>,
    pub odd_levels_only: bool,
    pub inlinetask_min_level: int,
    pub inlinetask_end_marker: Seq<u8>,
}

/// The views of a list of byte words.
pub open spec fn words_view(list: Seq<Vec<u8>>) -> Seq<Seq<u8>> {
    list.map_values(|v: Vec<u8>| v@)
}

/// Membership of a word in a word list.
pub open spec fn word_in(list: Seq<Seq<u8>>, w: Seq<u8>) -> bool {
    exists|i: int| 0 <= i < list.len() && list[i] == w
}

/// A usable literal: non-empty, with no whitespace byte.
pub open spec fn literal_ok(w: Seq<u8>) -> bool {
    w.len() > 0 && forall|j: int| 0 <= j < w.len() ==> !is_blank(w[j])
}

/// A usable tag literal: non-empty, all bytes in the tag alphabet.
pub open spec fn tag_literal_ok(w: Seq<u8>) -> bool {
    w.len() > 0 && forall|j: int| 0 <= j < w.len() ==> is_tag_byte(w[j])
}

/// Everything `Config::new` checks.
pub open spec fn config_wf(c: ConfigV) -> bool {
    &&& forall|i: int| 0 <= i < c.todo_keywords.len() ==> literal_ok(c.todo_keywords[i])
    &&& forall|i: int|
        0 <= i < c.done_keywords.len() ==> word_in(c.todo_keywords, c.done_keywords[i])
    &&& tag_literal_ok(c.archive_tag)
    &&& literal_ok(c.comment_marker)
    &&& c.inlinetask_min_level >= 1
    &&& literal_ok(c.inlinetask_end_marker)
}

/// The view that `Config::new` builds from its arguments.
pub open spec fn args_view(
    todo_keywords: Seq<Vec<u8>>,
    done_keywords: Seq<Vec<u8>>,
    archive_tag: Seq<u8>,
    footnote_section: Option<Vec<u8>>,
    comment_marker: Seq<u8>,
    odd_levels_only: bool,
    inlinetask_min_level: int,
    inlinetask_end_marker: Seq<u8>,
) -> ConfigV {
    ConfigV {
        todo_keywords: words_view(todo_keywords),
        done_keywords: words_view(done_keywords),
        archive_tag: archive_tag,
        footnote_section: match footnote_section {
            Option::Some(f) => Option::Some(f@),
            Option::None => Option::None,
        },
        comment_marker: comment_marker,
        odd_levels_only: odd_levels_only,
        inlinetask_min_level: inlinetask_min_level,
        inlinetask_end_marker: inlinetask_end_marker,
    }
}

/// User-supplied configuration. The fields are plain data; `Config::new`
/// validates them and is the intended way to build one.
#[derive(Debug, Clone, PartialEq, Eq)]
pub struct Config {
    /// Ordered set of valid TODO keywords; earlier entries match first.
    pub todo_keywords: Vec<Vec<u8>>,
    /// Subset of the keywords that classify as done states.
    pub done_keywords: Vec<Vec<u8>>,
    /// Tag literal whose presence marks a headline as archived.
    pub archive_tag: Vec<u8>,
    /// Title literal marking the footnote section, if one is configured.
    pub footnote_section: Option<Vec<u8>>,
    /// Token marking a commented headline.
    pub comment_marker: Vec<u8>,
    /// Whether raw star counts are folded to odd levels (ceiling of half).
    pub odd_levels_only: bool,
    /// Minimum raw star count of an inline task.
    pub inlinetask_min_level: usize,
    /// Token that, after the stars of an inline-task line, closes the task.
    pub inlinetask_end_marker: Vec<u8>,
}

impl View for Config {
    type V = ConfigV;

    open spec fn view(&self) -> ConfigV {
        ConfigV {
            todo_keywords: words_view(self.todo_keywords@),
            done_keywords: words_view(self.done_keywords@),
            archive_tag: self.archive_tag@,
            footnote_section: match self.footnote_section {
                Option::Some(f) => Option::Some(f@),
                Option::None => Option::None,
            },
            comment_marker: self.comment_marker@,
            odd_levels_only: self.odd_levels_only,
            inlinetask_min_level: self.inlinetask_min_level as int,
            inlinetask_end_marker: self.inlinetask_end_marker@,
        }
    }
}

/// Whether `w` is non-empty and free of whitespace bytes.
fn check_literal(w: &Vec<u8>) -> (b: bool)
    ensures
        b == literal_ok(w@),
{
    if w.len() == 0 {
        return false;
    }
    let mut j: usize = 0;
    while j < w.len()
        invariant
            j <= w@.len(),
            forall|m: int| 0 <= m < j ==> !is_blank(w@[m]),
        decreases w@.len() - j,
    {
        let c = w[j];
        if c == 32 || c == 9 || c == 13 || c == 10 {
            return false;
        }
        j = j + 1;
    }
    true
}

/// Whether `w` is a non-empty word over the tag alphabet.
fn check_tag_literal(w: &Vec<u8>) -> (b: bool)
    ensures
        b == tag_literal_ok(w@),
{
    if w.len() == 0 {
        return false;
    }
    let mut j: usize = 0;
    while j < w.len()
        invariant
            j <= w@.len(),
            forall|m: int| 0 <= m < j ==> is_tag_byte(w@[m]),
        decreases w@.len() - j,
    {
        let c = w[j];
        let ok = (48 <= c && c <= 57) || (65 <= c && c <= 90) || (97 <= c && c <= 122) || c == 95
            || c == 64 || c == 35 || c == 37;
        if !ok {
            return false;
        }
        j = j + 1;
    }
    true
}

/// Whether `w` occurs in `list`, by byte equality.
pub fn word_list_contains(list: &Vec<Vec<u8>>, w: &Vec<u8>) -> (b: bool)
    ensures
        b == word_in(words_view(list@), w@),
{
    let mut i: usize = 0;
    while i < list.len()
        invariant
            i <= list@.len(),
            forall|m: int| 0 <= m < i ==> words_view(list@)[m] != w@,
        decreases list@.len() - i,
    {
        if bytes_eq(&list[i], w) {
            assert(words_view(list@)[i as int] == w@);
            return true;
        }
        i = i + 1;
    }
    false
}

impl Config {
    /// Validate and assemble a configuration. Succeeds exactly when every
    /// TODO keyword is a non-empty whitespace-free word, every done keyword
    /// is one of the TODO keywords, the archive tag is a word over the tag
    /// alphabet, the comment marker and inline-task end marker are
    /// non-empty whitespace-free words, and the inline-task minimum level
    /// is at least one. The checks run in field order and the first failure
    /// names the offending entry.
    pub fn new(
        todo_keywords: Vec<Vec<u8>>,
        done_keywords: Vec<Vec<u8>>,
        archive_tag: Vec<u8>,
        footnote_section: Option<Vec<u8>>,
        comment_marker: Vec<u8>,
        odd_levels_only: bool,
        inlinetask_min_level: usize,
        inlinetask_end_marker: Vec<u8>,
    ) -> (r: Result<Config, ConfigError>)
        ensures
            r.is_ok() <==> config_wf(
                args_view(
                    todo_keywords@,
                    done_keywords@,
                    archive_tag@,
                    footnote_section,
                    comment_marker@,
                    odd_levels_only,
                    inlinetask_min_level as int,
                    inlinetask_end_marker@,
                ),
            ),
            r matches Ok(c) ==> c.todo_keywords@ == todo_keywords@ && c.done_keywords@
                == done_keywords@ && c.archive_tag@ == archive_tag@ && c.footnote_section
                == footnote_section && c.comment_marker@ == comment_marker@ && c.odd_levels_only
                == odd_levels_only && c.inlinetask_min_level == inlinetask_min_level
                && c.inlinetask_end_marker@ == inlinetask_end_marker@ && config_wf(c@),
    {
        let mut i: usize = 0;
        while i < todo_keywords.len()
            invariant
                i <= todo_keywords@.len(),
                forall|m: int| 0 <= m < i ==> literal_ok(words_view(todo_keywords@)[m]),
            decreases todo_keywords@.len() - i,
        {
            let ghost cv = args_view(
                todo_keywords@,
                done_keywords@,
                archive_tag@,
                footnote_section,
                comment_marker@,
                odd_levels_only,
                inlinetask_min_level as int,
                inlinetask_end_marker@,
            );
            assert(cv.todo_keywords[i as int] == todo_keywords@[i as int]@);
            if todo_keywords[i].len() == 0 {
                proof {
                    assert(!config_wf(cv)) by {
                        if config_wf(cv) {
                            assert(literal_ok(cv.todo_keywords[i as int]));
                        }
                    }
                }
                return Err(ConfigError::EmptyTodoKeyword { index: i });
            }
            if !check_literal(&todo_keywords[i]) {
                proof {
                    assert(!config_wf(cv)) by {
                        if config_wf(cv) {
                            assert(literal_ok(cv.todo_keywords[i as int]));
                        }
                    }
                }
                return Err(ConfigError::BlankInTodoKeyword { index: i });
            }
            i = i + 1;
        }
        let mut i: usize = 0;
        while i < done_keywords.len()
            invariant
                i <= done_keywords@.len(),
                forall|m: int|
                    0 <= m < i ==> word_in(
                        words_view(todo_keywords@),
                        words_view(done_keywords@)[m],
                    ),
            decreases done_keywords@.len() - i,
        {
            let ghost cv = args_view(
                todo_keywords@,
                done_keywords@,
                archive_tag@,
                footnote_section,
                comment_marker@,
                odd_levels_only,
                inlinetask_min_level as int,
                inlinetask_end_marker@,
            );
            assert(cv.done_keywords[i as int] == done_keywords@[i as int]@);
            if !word_list_contains(&todo_keywords, &done_keywords[i]) {
                proof {
                    assert(!config_wf(cv)) by {
                        if config_wf(cv) {
                            assert(word_in(cv.todo_keywords, cv.done_keywords[i as int]));
                        }
                    }
                }
                return Err(ConfigError::UnknownDoneKeyword { index: i });
            }
            i = i + 1;
        }
        if !check_tag_literal(&archive_tag) {
            return Err(ConfigError::InvalidArchiveTag);
        }
        if !check_literal(&comment_marker) {
            return Err(ConfigError::InvalidCommentMarker);
        }
        if inlinetask_min_level == 0 {
            return Err(ConfigError::InvalidInlinetaskLevel);
        }
        if !check_literal(&inlinetask_end_marker) {
            return Err(ConfigError::InvalidInlinetaskEndMarker);
        }
        Ok(
            Config {
                todo_keywords,
                done_keywords,
                archive_tag,
                footnote_section,
                comment_marker,
                odd_levels_only,
                inlinetask_min_level,
                inlinetask_end_marker,
            },
        )
    }
}

impl TodoKeyword {
    /// Whether this keyword classifies as a done state: membership in the
    /// configured done subset, never a hard-coded literal.
    pub fn is_done(&self, config: &Config) -> (r: bool)
        ensures
            r == word_in(config@.done_keywords, self.0@),
    {
        word_list_contains(&config.done_keywords, &self.0)
    }

    /// The done/todo classification of this keyword under `config`.
    pub fn todo_type(&self, config: &Config) -> (r: TodoType)
        ensures
            (r == TodoType::DONE) == word_in(config@.done_keywords, self.0@),
    {
        if self.is_done(config) {
            TodoType::DONE
        } else {
            TodoType::TODO
        }
    }
}

} // verus!
