//! Reading the log-listing query parameters: the sort specification is
//! validated against the audit table's columns, and page numbers fall back
//! to defaults; the queries themselves run outside this crate.

use vstd::prelude::*;
use vstd::string::*;
use crate::json::str_split_once;

verus! {

/// A validated sort request: one known column, ascending or descending.
pub struct Sorting {
    pub column: String,
    pub desc: bool,
}

/// The columns the listing may sort by.
pub open spec fn valid_column(c: Seq<char>) -> bool {
    ||| c == "timestamp"@
    ||| c == "provider_id"@
    ||| c == "prompt_tokens"@
    ||| c == "completion_tokens"@
    ||| c == "request_time"@
    ||| c == "response_time"@
    ||| c == "chat"@
    ||| c == "model"@
    ||| c == "speed"@
}

/// The column a sort parameter names: the text before the first comma, or
/// the whole text; an empty parameter falls back to `timestamp`.
pub open spec fn spec_sort_column(s: Seq<char>) -> Seq<char> {
    if s.contains(',') {
        prefix_before(s, ',')
    } else if s.len() == 0 {
        "timestamp"@
    } else {
        s
    }
}

/// The text before the first occurrence of a character.
pub open spec fn prefix_before(s: Seq<char>, c: char) -> Seq<char>
    decreases s.len(),
{
    if s.len() == 0 {
        Seq::empty()
    } else if s[0] == c {
        Seq::empty()
    } else {
        seq![s[0]] + prefix_before(s.drop_first(), c)
    }
}

/// The text between the first and second occurrence of a character, when
/// there is a first one.
pub open spec fn second_part(s: Seq<char>, c: char) -> Option<Seq<char>> {
    if s.contains(c) {
        Some(spec_sort_column_rest(s, c))
    } else {
        None
    }
}

pub open spec fn spec_sort_column_rest(s: Seq<char>, c: char) -> Seq<char>
    decreases s.len(),
{
    if s.len() == 0 {
        Seq::empty()
    } else if s[0] == c {
        prefix_before(s.drop_first(), c)
    } else {
        spec_sort_column_rest(s.drop_first(), c)
    }
}

/// What a sort parameter means: the named column when it is one the table
/// has, descending exactly when the part after the first comma is `desc`;
/// an invalid column means no sorting.
pub open spec fn spec_sorting(s: Seq<char>, r: Option<Sorting>) -> bool {
    if valid_column(spec_sort_column(s)) {
        r matches Some(srt) && srt.column@ == spec_sort_column(s) && srt.desc == (second_part(s,
            ',') == Some("desc"@))
    } else {
        r is None
    }
}

proof fn lemma_prefix_before_split(pre: Seq<char>, rest: Seq<char>, c: char)
    requires
        !pre.contains(c),
    ensures
        prefix_before(pre + seq![c] + rest, c) == pre,
        spec_sort_column_rest(pre + seq![c] + rest, c) == prefix_before(rest, c),
    decreases pre.len(),
{
    let s = pre + seq![c] + rest;
    if pre.len() == 0 {
        assert(s[0] == c);
        assert(s.drop_first() =~= rest);
        assert(prefix_before(s, c) =~= pre);
    } else {
        assert(pre[0] != c) by {
            assert(pre.contains(pre[0]));
        }
        assert(!pre.drop_first().contains(c)) by {
            if pre.drop_first().contains(c) {
                let i = choose|i: int|
                    0 <= i < pre.drop_first().len() && pre.drop_first()[i] == c;
                assert(pre[i + 1] == c);
                assert(pre.contains(c));
            }
        }
        lemma_prefix_before_split(pre.drop_first(), rest, c);
        assert(s.drop_first() =~= pre.drop_first() + seq![c] + rest);
        assert(prefix_before(s, c) =~= seq![pre[0]] + prefix_before(s.drop_first(), c));
        assert(prefix_before(s, c) =~= pre);
    }
}

proof fn lemma_prefix_before_whole(s: Seq<char>, c: char)
    requires
        !s.contains(c),
    ensures
        prefix_before(s, c) == s,
    decreases s.len(),
{
    if s.len() == 0 {
        assert(prefix_before(s, c) =~= s);
    } else {
        assert(s[0] != c) by {
            assert(s.contains(s[0]));
        }
        assert(!s.drop_first().contains(c)) by {
            if s.drop_first().contains(c) {
                let i = choose|i: int|
                    0 <= i < s.drop_first().len() && s.drop_first()[i] == c;
                assert(s[i + 1] == c);
            }
        }
        lemma_prefix_before_whole(s.drop_first(), c);
        assert(prefix_before(s, c) =~= s);
    }
}

fn is_valid_column(c: &String) -> (r: bool)
    ensures
        r == valid_column(c@),
{
    c.eq(&String::from_str("timestamp")) || c.eq(&String::from_str("provider_id")) || c.eq(
        &String::from_str("prompt_tokens"),
    ) || c.eq(&String::from_str("completion_tokens")) || c.eq(&String::from_str("request_time"))
        || c.eq(&String::from_str("response_time")) || c.eq(&String::from_str("chat")) || c.eq(
        &String::from_str("model"),
    ) || c.eq(&String::from_str("speed"))
}

/// Read a sort parameter, `column` or `column,desc`, validating the column
/// against the audit table.
pub fn parse_sorting(sort: &str) -> (r: Option<Sorting>)
    ensures
        spec_sorting(sort@, r),
{
    let (column, desc): (String, bool) = match str_split_once(sort, ',') {
        Some(parts) => {
            proof {
                lemma_prefix_before_split(parts.0@, parts.1@, ',');
                assert(sort@[parts.0@.len() as int] == ',');
                assert(sort@.contains(','));
            }
            let after = match str_split_once(parts.1.as_str(), ',') {
                Some(inner) => {
                    proof {
                        lemma_prefix_before_split(inner.0@, inner.1@, ',');
                    }
                    inner.0
                },
                None => {
                    proof {
                        lemma_prefix_before_whole(parts.1@, ',');
                    }
                    parts.1
                },
            };
            let desc = after.eq(&String::from_str("desc"));
            (parts.0, desc)
        },
        None => {
            proof {
                lemma_prefix_before_whole(sort@, ',');
            }
            if sort.unicode_len() == 0 {
                (String::from_str("timestamp"), false)
            } else {
                (String::from_str(sort), false)
            }
        },
    };
    if is_valid_column(&column) {
        Some(Sorting { column, desc })
    } else {
        None
    }
}

/// The page window the listing reads: `page * size` rows skipped, `size`
/// rows taken. Sizes and pages outside sense fall back to the defaults the
/// listing uses (page 0, size 10).
pub fn page_window(page: Option<i64>, size: Option<i64>) -> (r: (i64, i64))
    ensures
        r.1 as int == (match size {
            Some(s) => s as int,
            None => 10int,
        }),
        ({
            let prod = (match page {
                Some(p) => p as int,
                None => 0int,
            }) * (r.1 as int);
            if prod > i64::MAX {
                r.0 == i64::MAX
            } else if prod < i64::MIN {
                r.0 == i64::MIN
            } else {
                r.0 as int == prod
            }
        }),
{
    let s: i64 = match size {
        Some(s) => s,
        None => 10,
    };
    let p: i64 = match page {
        Some(p) => p,
        None => 0,
    };
    match p.checked_mul(s) {
        Some(o) => (o, s),
        None => {
            if (p < 0) != (s < 0) {
                proof {
                    assert(p * s <= 0) by (nonlinear_arith)
                        requires
                            (p < 0) != (s < 0),
                    ;
                }
                (i64::MIN, s)
            } else {
                proof {
                    assert(p * s >= 0) by (nonlinear_arith)
                        requires
                            !((p < 0) != (s < 0)),
                    ;
                }
                (i64::MAX, s)
            }
        },
    }
}

} // verus!
