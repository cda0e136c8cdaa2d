//! How a quoted path in diff output reads back: `unescape_path` undoes
//! `escape_path`.

use crate::patch_parser::{escaped_path, unescaped_path};
use crate::text::{is_white_space, replace_all, starts_with, trim, trim_back, trim_front};
use vstd::prelude::*;

verus! {

/// `s` with each backslash doubled.
pub open spec fn backslashes_doubled(s: Seq<char>) -> Seq<char>
    decreases s.len(),
{
    if s.len() == 0 {
        Seq::empty()
    } else if s[0] == '\\' {
        seq!['\\', '\\'] + backslashes_doubled(s.drop_first())
    } else {
        seq![s[0]] + backslashes_doubled(s.drop_first())
    }
}

/// `s` with each backslash doubled and each double quote preceded by a
/// backslash.
pub open spec fn quote_escaped(s: Seq<char>) -> Seq<char>
    decreases s.len(),
{
    if s.len() == 0 {
        Seq::empty()
    } else if s[0] == '\\' {
        seq!['\\', '\\'] + quote_escaped(s.drop_first())
    } else if s[0] == '"' {
        seq!['\\', '"'] + quote_escaped(s.drop_first())
    } else {
        seq![s[0]] + quote_escaped(s.drop_first())
    }
}

proof fn lemma_double_backslashes(s: Seq<char>)
    ensures
        replace_all(s, seq!['\\'], seq!['\\', '\\']) == backslashes_doubled(s),
    decreases s.len(),
{
    if s.len() > 0 {
        lemma_double_backslashes(s.drop_first());
        assert(s.subrange(1, s.len() as int) =~= s.drop_first());
        if s[0] == '\\' {
            assert(s.subrange(0, 1) =~= seq!['\\']);
        } else {
            assert(s.subrange(0, 1)[0] == s[0]);
        }
    }
}

proof fn lemma_escape_quotes(s: Seq<char>)
    ensures
        replace_all(backslashes_doubled(s), seq!['"'], seq!['\\', '"']) == quote_escaped(s),
    decreases s.len(),
{
    if s.len() > 0 {
        let rest = s.drop_first();
        lemma_escape_quotes(rest);
        let b = backslashes_doubled(rest);
        if s[0] == '\\' {
            let d = seq!['\\', '\\'] + b;
            assert(backslashes_doubled(s) == d);
            assert(d.subrange(0, 1)[0] == '\\');
            assert(d.drop_first() =~= seq!['\\'] + b);
            let d1 = d.drop_first();
            assert(d1.subrange(0, 1)[0] == '\\');
            assert(d1.drop_first() =~= b);
            assert(replace_all(d1, seq!['"'], seq!['\\', '"']) == seq!['\\'] + replace_all(
                b,
                seq!['"'],
                seq!['\\', '"'],
            ));
            assert(replace_all(d, seq!['"'], seq!['\\', '"']) =~= seq!['\\', '\\'] + quote_escaped(
                rest,
            ));
        } else if s[0] == '"' {
            let d = seq!['"'] + b;
            assert(backslashes_doubled(s) == d);
            assert(d.subrange(0, 1) =~= seq!['"']);
            assert(d.subrange(1, d.len() as int) =~= b);
        } else {
            let d = seq![s[0]] + b;
            assert(backslashes_doubled(s) == d);
            assert(d.subrange(0, 1)[0] == s[0]);
            assert(d.drop_first() =~= b);
        }
    }
}

proof fn lemma_quote_escaped_head(s: Seq<char>)
    requires
        quote_escaped(s).len() > 0,
    ensures
        quote_escaped(s)[0] != '"',
{
}

proof fn lemma_unescape_quotes(s: Seq<char>)
    ensures
        replace_all(quote_escaped(s), seq!['\\', '"'], seq!['"']) == backslashes_doubled(s),
    decreases s.len(),
{
    if s.len() > 0 {
        let rest = s.drop_first();
        lemma_unescape_quotes(rest);
        let e = quote_escaped(rest);
        if s[0] == '\\' {
            let q = seq!['\\', '\\'] + e;
            assert(quote_escaped(s) == q);
            assert(q.subrange(0, 2)[1] == '\\');
            assert(!starts_with(q, seq!['\\', '"']));
            let q1 = q.drop_first();
            assert(q1 =~= seq!['\\'] + e);
            if e.len() > 0 {
                lemma_quote_escaped_head(rest);
                assert(q1.subrange(0, 2)[1] == e[0]);
                assert(q1.subrange(0, 2)[1] != seq!['\\', '"'][1]);
            } else {
                assert(q1.len() < 2);
            }
            assert(!starts_with(q1, seq!['\\', '"']));
            assert(q1.drop_first() =~= e);
            assert(replace_all(q1, seq!['\\', '"'], seq!['"']) == seq![q1[0]] + replace_all(
                q1.drop_first(),
                seq!['\\', '"'],
                seq!['"'],
            ));
            assert(replace_all(q, seq!['\\', '"'], seq!['"']) == seq![q[0]] + replace_all(
                q.drop_first(),
                seq!['\\', '"'],
                seq!['"'],
            ));
            assert(replace_all(q, seq!['\\', '"'], seq!['"']) =~= seq!['\\', '\\'] + replace_all(
                e,
                seq!['\\', '"'],
                seq!['"'],
            ));
        } else if s[0] == '"' {
            let q = seq!['\\', '"'] + e;
            assert(quote_escaped(s) == q);
            assert(q.subrange(0, 2) =~= seq!['\\', '"']);
            assert(q.subrange(2, q.len() as int) =~= e);
        } else {
            let q = seq![s[0]] + e;
            assert(quote_escaped(s) == q);
            if q.len() >= 2 {
                assert(q.subrange(0, 2)[0] == s[0]);
            }
            assert(!starts_with(q, seq!['\\', '"']));
            assert(q.drop_first() =~= e);
        }
    }
}

proof fn lemma_halve_backslashes(s: Seq<char>)
    ensures
        replace_all(backslashes_doubled(s), seq!['\\', '\\'], seq!['\\']) == s,
    decreases s.len(),
{
    if s.len() > 0 {
        let rest = s.drop_first();
        lemma_halve_backslashes(rest);
        let b = backslashes_doubled(rest);
        if s[0] == '\\' {
            let d = seq!['\\', '\\'] + b;
            assert(backslashes_doubled(s) == d);
            assert(d.subrange(0, 2) =~= seq!['\\', '\\']);
            assert(d.subrange(2, d.len() as int) =~= b);
            assert(seq!['\\'] + rest =~= s);
        } else {
            let d = seq![s[0]] + b;
            assert(backslashes_doubled(s) == d);
            if d.len() >= 2 {
                assert(d.subrange(0, 2)[0] == s[0]);
            }
            assert(!starts_with(d, seq!['\\', '\\']));
            assert(d.drop_first() =~= b);
            assert(seq![s[0]] + rest =~= s);
        }
    }
}

/// A path written with `escape_path` reads back unchanged with
/// `unescape_path`, whenever it contains a space (and so is quoted), or
/// it has no surrounding white space and is not itself wrapped in double
/// quotes.
pub proof fn lemma_unescape_escaped_path(path: Seq<char>)
    requires
        path.contains(' ') || (trim(path) == path && !(path.len() >= 2 && path[0] == '"'
            && path.last() == '"')),
    ensures
        unescaped_path(escaped_path(path)) == path,
{
    if path.contains(' ') {
        lemma_double_backslashes(path);
        lemma_escape_quotes(path);
        lemma_unescape_quotes(path);
        lemma_halve_backslashes(path);
        let e = quote_escaped(path);
        let w = seq!['"'] + e + seq!['"'];
        assert(escaped_path(path) == w);
        assert(!is_white_space(w[0]));
        assert(trim_front(w) == w);
        assert(w.last() == '"');
        assert(!is_white_space(w.last()));
        assert(trim_back(w) == w);
        assert(trim(w) == w);
        assert(w.subrange(1, w.len() - 1) =~= e);
    }
}

} // verus!
