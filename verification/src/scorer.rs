//! Keyword-based scoring of files, for suggestions that fit a task.
//!
//! A score is kept as the bits of a float that is not negative, as a rank is.
use vstd::prelude::*;

use crate::db::{FileWithExportsAndEnrichment, Index, IndexView};
use crate::deps;
use crate::lists;
use crate::order;
use crate::order::SortKey;
use crate::queries;
use crate::queries::ListedFile;
use crate::text;
use crate::text::CharClass;

verus! {

/// Words that say nothing about a file.
pub const STOP_WORDS: [&'static str; 68] = [
    "a", "an", "the", "is", "are", "was", "were", "be", "been", "being", "to", "for", "and", "or",
    "of", "in", "on", "with", "at", "by", "from", "as", "it", "its", "this", "that", "do", "does",
    "did", "has", "have", "had", "will", "would", "could", "should", "can", "may", "might",
    "shall", "not", "no", "but", "if", "then", "so", "than", "too", "very", "just", "about",
    "into", "over", "after", "before", "between", "through", "during", "each", "every", "all",
    "both", "some", "any", "most", "other", "new", "old",
];

/// Whether a word is a stop word.
pub open spec fn is_stop(word: Seq<char>) -> bool {
    exists|i: int| 0 <= i < STOP_WORDS@.len() && (#[trigger] STOP_WORDS@[i])@ == word
}

/// Whether a word is a stop word.
fn is_stop_word(word: &str) -> (r: bool)
    ensures
        r == is_stop(word@),
{
    let words = STOP_WORDS;
    for i in 0..words.len()
        invariant
            words@ == STOP_WORDS@,
            forall|k: int| 0 <= k < i ==> (#[trigger] STOP_WORDS@[k])@ != word@,
    {
        if text::same(words[i], word) {
            assert(STOP_WORDS@[i as int]@ == word@);
            return true;
        }
    }
    false
}

/// A word of a query as a keyword: in small letters, without what is no letter or digit around it.
pub open spec fn keyword(word: Seq<char>) -> Seq<char> {
    text::trim_by(text::lowercase(word), CharClass::NotAlphanumeric)
}

/// The keywords of some words: without empty ones, stop words and repetitions.
pub open spec fn keywords_of(words: Seq<Seq<char>>) -> Seq<Seq<char>>
    decreases words.len(),
{
    if words.len() == 0 {
        Seq::empty()
    } else {
        let before = keywords_of(words.drop_last());
        let last = keyword(words.last());
        if last.len() == 0 || is_stop(last) || before.contains(last) {
            before
        } else {
            before.push(last)
        }
    }
}

/// The keywords of a query.
pub open spec fn query_keywords(query: Seq<char>) -> Seq<Seq<char>> {
    keywords_of(text::pieces(query, CharClass::Space))
}

/// Splits a query into keywords in small letters, without stop words and repetitions.
pub fn tokenize_query(query: &str) -> (r: Vec<String>)
    ensures
        text::views(r@) == query_keywords(query@),
{
    let words = text::split_pieces(query, CharClass::Space);
    let ghost all = text::views(words@);
    let mut out: Vec<String> = Vec::new();
    assert(all.take(0) =~= Seq::<Seq<char>>::empty());
    assert(text::views(out@) =~= Seq::<Seq<char>>::empty());
    for i in 0..words.len()
        invariant
            all == text::views(words@),
            text::views(out@) == keywords_of(all.take(i as int)),
    {
        let ghost before = text::views(out@);
        proof {
            assert(all.take(i + 1).drop_last() =~= all.take(i as int));
            assert(all.take(i + 1).last() == words@[i as int]@);
        }
        let lower = text::to_lowercase(words[i].as_str());
        let word = text::trim(lower.as_str(), CharClass::NotAlphanumeric);
        if word.as_str().unicode_len() > 0 && !is_stop_word(word.as_str()) && !text::holds(
            &out,
            word.as_str(),
        ) {
            let ghost shown = word@;
            out.push(word);
            assert(text::views(out@) =~= before.push(shown));
        }
    }
    assert(all.take(all.len() as int) =~= all);
    out
}

/// No keyword is empty, is a stop word or stands among the others twice.
pub proof fn law_keywords(words: Seq<Seq<char>>)
    ensures
        keywords_of(words).no_duplicates(),
        forall|k: int|
            0 <= k < keywords_of(words).len() ==> (#[trigger] keywords_of(words)[k]).len() > 0
                && !is_stop(keywords_of(words)[k]),
    decreases words.len(),
{
    if words.len() > 0 {
        law_keywords(words.drop_last());
        let before = keywords_of(words.drop_last());
        let after = keywords_of(words);
        assert forall|a: int, b: int| 0 <= a < b < after.len() implies after[a] != after[b] by {
            assert(after[a] == before[a]);
            if b == before.len() {
                assert(before.contains(before[a]));
            }
        }
    }
}

/// A keyword is found if and only if one of the words of a query stands for it.
pub proof fn law_keywords_complete(words: Seq<Seq<char>>, word: Seq<char>)
    ensures
        keywords_of(words).contains(word) == (word.len() > 0 && !is_stop(word) && exists|i: int|
            0 <= i < words.len() && keyword(#[trigger] words[i]) == word),
    decreases words.len(),
{
    if words.len() > 0 {
        let rest = words.drop_last();
        law_keywords_complete(rest, word);
        let before = keywords_of(rest);
        let after = keywords_of(words);
        let last = keyword(words.last());
        if before.contains(word) {
            let k = choose|k: int| 0 <= k < before.len() && before[k] == word;
            assert(after[k] == word);
            let i = choose|i: int| 0 <= i < rest.len() && keyword(#[trigger] rest[i]) == word;
            assert(words[i] == rest[i]);
        }
        if after.contains(word) && !before.contains(word) {
            let k = choose|k: int| 0 <= k < after.len() && after[k] == word;
            if k < before.len() {
                assert(before[k] == word);
            }
            assert(keyword(words[words.len() - 1]) == word);
        }
        if word.len() > 0 && !is_stop(word) && exists|i: int|
            0 <= i < words.len() && keyword(#[trigger] words[i]) == word {
            let i = choose|i: int| 0 <= i < words.len() && keyword(#[trigger] words[i]) == word;
            if i < rest.len() {
                assert(rest[i] == words[i]);
            } else if !before.contains(last) {
                assert(after[before.len() as int] == word);
            }
        }
    }
}

/// The keywords of two lists of words are those of the one, and behind them those of the other that
/// the one does not have.
proof fn lemma_keywords_joined(a: Seq<Seq<char>>, b: Seq<Seq<char>>)
    ensures
        keywords_of(a + b) == keywords_of(a) + keywords_of(b).filter(
            |k: Seq<char>| !keywords_of(a).contains(k),
        ),
    decreases b.len(),
{
    reveal(Seq::filter);
    let first = keywords_of(a);
    let fresh = |k: Seq<char>| !first.contains(k);
    if b.len() == 0 {
        assert(a + b =~= a);
        assert(first + keywords_of(b).filter(fresh) =~= first);
    } else {
        let short = b.drop_last();
        lemma_keywords_joined(a, short);
        assert((a + b).drop_last() =~= a + short);
        let last = keyword(b.last());
        let second = keywords_of(short);
        let kept = second.filter(fresh);
        assert(keywords_of(a + short) == first + kept);
        lemma_kept(second, fresh, last);
        assert((first + kept).contains(last) <==> first.contains(last) || kept.contains(last)) by {
            if first.contains(last) {
                let k = choose|k: int| 0 <= k < first.len() && first[k] == last;
                assert((first + kept)[k] == last);
            }
            if kept.contains(last) {
                let k = choose|k: int| 0 <= k < kept.len() && kept[k] == last;
                assert((first + kept)[first.len() + k] == last);
            }
        }
        assert(second.push(last).drop_last() =~= second);
        assert(keywords_of(a + b) =~= first + keywords_of(b).filter(fresh));
    }
}

/// What is filtered out of a list is what the list has and the filter lets through.
proof fn lemma_kept(s: Seq<Seq<char>>, keep: spec_fn(Seq<char>) -> bool, item: Seq<char>)
    ensures
        s.filter(keep).contains(item) <==> s.contains(item) && keep(item),
    decreases s.len(),
{
    reveal(Seq::filter);
    if s.len() > 0 {
        let short = s.drop_last();
        lemma_kept(short, keep, item);
        if short.contains(item) {
            let k = choose|k: int| 0 <= k < short.len() && short[k] == item;
            assert(s[k] == item);
        }
        if s.contains(item) && s.last() != item {
            let k = choose|k: int| 0 <= k < s.len() && s[k] == item;
            assert(short[k] == item);
        }
        let kept = short.filter(keep);
        if kept.contains(item) && keep(s.last()) {
            let k = choose|k: int| 0 <= k < kept.len() && kept[k] == item;
            assert(s.filter(keep)[k] == item);
        }
        if keep(s.last()) {
            assert(s.filter(keep)[kept.len() as int] == s.last());
            assert(s[s.len() - 1] == s.last());
            if s.filter(keep).contains(item) && item != s.last() {
                let k = choose|k: int| 0 <= k < s.filter(keep).len() && s.filter(keep)[k] == item;
                assert(kept[k] == item);
            }
        }
    }
}

/// The keywords of two queries with a space between them are those of the first, in order, and
/// behind them those of the second that the first does not have, in order.
pub proof fn law_joined_queries(a: Seq<char>, b: Seq<char>)
    ensures
        query_keywords(a + " "@ + b) == query_keywords(a) + query_keywords(b).filter(
            |k: Seq<char>| !query_keywords(a).contains(k),
        ),
{
    reveal_strlit(" ");
    assert(a + " "@ + b =~= a.push(' ') + b);
    text::lemma_split_joined(a, ' ', b, CharClass::Space);
    lemma_keywords_joined(
        text::pieces(a, CharClass::Space),
        text::pieces(b, CharClass::Space),
    );
}

/// A query said twice has the keywords that it has said once.
pub proof fn law_repeated_query(a: Seq<char>)
    ensures
        query_keywords(a + " "@ + a) == query_keywords(a),
{
    law_joined_queries(a, a);
    let all = query_keywords(a);
    let fresh = |k: Seq<char>| !all.contains(k);
    let rest = all.filter(fresh);
    if rest.len() > 0 {
        assert(rest.contains(rest[0]));
        lemma_kept(all, fresh, rest[0]);
    }
    assert(all + rest =~= all);
}

/// Words that stand for themselves, each once, are their own keywords.
proof fn lemma_own_keywords(words: Seq<Seq<char>>)
    requires
        words.no_duplicates(),
        forall|k: int|
            0 <= k < words.len() ==> keyword(#[trigger] words[k]) == words[k] && words[k].len() > 0
                && !is_stop(words[k]),
    ensures
        keywords_of(words) == words,
    decreases words.len(),
{
    if words.len() > 0 {
        let short = words.drop_last();
        assert forall|k: int| 0 <= k < short.len() implies keyword(#[trigger] short[k]) == short[k]
            && short[k].len() > 0 && !is_stop(short[k]) by {
            assert(short[k] == words[k]);
        }
        lemma_own_keywords(short);
        assert(words.last() == words[words.len() - 1]);
        assert(short.push(words.last()) =~= words);
    }
}

/// The words of a list, joined by spaces, are the pieces of the text.
proof fn lemma_joined_words(words: Seq<Seq<char>>)
    requires
        forall|k: int, i: int|
            0 <= k < words.len() && 0 <= i < words[k].len() ==> !text::is_space(
                #[trigger] words[k][i],
            ),
        forall|k: int| 0 <= k < words.len() ==> (#[trigger] words[k]).len() > 0,
    ensures
        text::pieces(text::join(words, " "@), CharClass::Space) == words,
    decreases words.len(),
{
    if words.len() == 0 {
        text::lemma_one_piece(Seq::<char>::empty(), CharClass::Space);
    } else {
        let last = words.last();
        assert(last == words[words.len() - 1]);
        assert forall|i: int| 0 <= i < last.len() implies !CharClass::Space.has(
            #[trigger] last[i],
        ) by {
            assert(!text::is_space(words[words.len() - 1][i]));
        }
        text::lemma_one_piece(last, CharClass::Space);
        if words.len() == 1 {
            assert(words =~= seq![last]);
        } else {
            let short = words.drop_last();
            assert forall|k: int| 0 <= k < short.len() implies (#[trigger] short[k]).len() > 0 by {
                assert(short[k] == words[k]);
            }
            assert forall|k: int, i: int|
                0 <= k < short.len() && 0 <= i < short[k].len() implies !text::is_space(
                #[trigger] short[k][i],
            ) by {
                assert(!text::is_space(words[k][i]));
            }
            lemma_joined_words(short);
            let before = text::join(short, " "@);
            text::lemma_split_joined(before, ' ', last, CharClass::Space);
            reveal_strlit(" ");
            assert(before + " "@ + last =~= before.push(' ') + last);
            assert(short + seq![last] =~= words);
        }
    }
}

/// The keywords of a query, joined by spaces, are a query with the same keywords, where each
/// of them is its own small-letter form and holds no white space.
pub proof fn law_keywords_of_keywords(query: Seq<char>)
    requires
        forall|k: int|
            0 <= k < query_keywords(query).len() ==> text::lowercase(
                #[trigger] query_keywords(query)[k],
            ) == query_keywords(query)[k],
        forall|k: int, i: int|
            0 <= k < query_keywords(query).len() && 0 <= i < query_keywords(query)[k].len()
                ==> !text::is_space(#[trigger] query_keywords(query)[k][i]),
    ensures
        query_keywords(text::join(query_keywords(query), " "@)) == query_keywords(query),
{
    let words = text::pieces(query, CharClass::Space);
    let all = query_keywords(query);
    law_keywords(words);
    assert forall|k: int| 0 <= k < all.len() implies keyword(#[trigger] all[k]) == all[k] by {
        law_keywords_complete(words, all[k]);
        assert(all.contains(all[k]));
        let i = choose|i: int| 0 <= i < words.len() && keyword(#[trigger] words[i]) == all[k];
        text::lemma_trimmed(text::lowercase(words[i]), CharClass::NotAlphanumeric);
    }
    lemma_joined_words(all);
    lemma_own_keywords(all);
}

// ---------------------------------------------------------------------------------------------
// Direct matches
// ---------------------------------------------------------------------------------------------

/// A file that some keyword fits: 3 points for each keyword in its path, 2 for each in the names
/// that it exports.
pub struct DirectMatch {
    pub path: String,
    pub rank: u64,
    pub points: u128,
    pub match_reasons: Vec<String>,
}

/// What is said of a file that some keyword fits.
#[verifier::ext_equal]
pub struct DirectView {
    pub path: Seq<char>,
    pub rank: u64,
    pub points: nat,
    pub reasons: Seq<Seq<char>>,
}

impl View for DirectMatch {
    type V = DirectView;

    open spec fn view(&self) -> DirectView {
        DirectView {
            path: self.path@,
            rank: self.rank,
            points: self.points as nat,
            reasons: text::views(self.match_reasons@),
        }
    }
}

/// What is said of some files that some keyword fits.
pub open spec fn direct_views(v: Seq<DirectMatch>) -> Seq<DirectView> {
    v.map_values(|d: DirectMatch| d@)
}

/// Whether one of the texts holds a keyword.
pub open spec fn any_contains(texts: Seq<Seq<char>>, keyword: Seq<char>) -> bool {
    exists|i: int| 0 <= i < texts.len() && text::contains(#[trigger] texts[i], keyword)
}

/// The parts of a path, in small letters.
pub open spec fn path_parts(path: Seq<char>) -> Seq<Seq<char>> {
    text::pieces(text::lowercase(path), CharClass::SlashOrDot)
}

/// Texts in small letters.
pub open spec fn lowercased(texts: Seq<Seq<char>>) -> Seq<Seq<char>> {
    texts.map_values(|t: Seq<char>| text::lowercase(t))
}

/// How many of the keywords one of the texts holds.
pub open spec fn hits(keywords: Seq<Seq<char>>, texts: Seq<Seq<char>>) -> nat
    decreases keywords.len(),
{
    if keywords.len() == 0 {
        0
    } else {
        hits(keywords.drop_last(), texts) + (if any_contains(texts, keywords.last()) {
            1nat
        } else {
            0nat
        })
    }
}

/// Reasons with the keywords added that one of the texts holds, each once.
pub open spec fn with_reasons(
    reasons: Seq<Seq<char>>,
    keywords: Seq<Seq<char>>,
    texts: Seq<Seq<char>>,
) -> Seq<Seq<char>>
    decreases keywords.len(),
{
    if keywords.len() == 0 {
        reasons
    } else {
        let before = with_reasons(reasons, keywords.drop_last(), texts);
        if any_contains(texts, keywords.last()) && !before.contains(keywords.last()) {
            before.push(keywords.last())
        } else {
            before
        }
    }
}

/// What the keywords say of a file.
pub open spec fn match_of(keywords: Seq<Seq<char>>, file: ListedFile) -> DirectView {
    let parts = path_parts(file.path);
    let names = lowercased(file.exports);
    DirectView {
        path: file.path,
        rank: file.rank,
        points: 3 * hits(keywords, parts) + 2 * hits(keywords, names),
        reasons: with_reasons(with_reasons(Seq::empty(), keywords, parts), keywords, names),
    }
}

/// The position of a path among matches, or their number.
pub open spec fn match_position(matches: Seq<DirectView>, path: Seq<char>) -> int
    decreases matches.len(),
{
    if matches.len() == 0 || matches[0].path == path {
        0
    } else {
        1 + match_position(matches.drop_first(), path)
    }
}

/// The matches after one more: it takes the place of one with the same path.
pub open spec fn with_match(matches: Seq<DirectView>, found: DirectView) -> Seq<DirectView> {
    let i = match_position(matches, found.path);
    if i < matches.len() {
        matches.update(i, found)
    } else {
        matches.push(found)
    }
}

/// The files that some keyword fits, each path once.
pub open spec fn matches_of(keywords: Seq<Seq<char>>, files: Seq<ListedFile>) -> Seq<DirectView>
    decreases files.len(),
{
    if files.len() == 0 {
        Seq::empty()
    } else {
        let before = matches_of(keywords, files.drop_last());
        let last = match_of(keywords, files.last());
        if last.points > 0 {
            with_match(before, last)
        } else {
            before
        }
    }
}

/// Whether one of the texts holds a keyword.
fn one_contains(texts: &Vec<String>, keyword: &str) -> (r: bool)
    ensures
        r == any_contains(text::views(texts@), keyword@),
{
    for i in 0..texts.len()
        invariant
            forall|k: int| 0 <= k < i ==> !text::contains(#[trigger] text::views(texts@)[k], keyword@),
    {
        if text::has_text(texts[i].as_str(), keyword) {
            assert(text::contains(text::views(texts@)[i as int], keyword@));
            return true;
        }
    }
    false
}

/// Counts the keywords that one of the texts holds, and adds them to the reasons.
fn collect_hits(keywords: &Vec<String>, texts: &Vec<String>, reasons: &mut Vec<String>) -> (r:
    u128)
    ensures
        r == hits(text::views(keywords@), text::views(texts@)),
        r <= usize::MAX,
        text::views(final(reasons)@) == with_reasons(
            text::views(old(reasons)@),
            text::views(keywords@),
            text::views(texts@),
        ),
{
    let ghost kv = text::views(keywords@);
    let ghost tv = text::views(texts@);
    let ghost start = text::views(reasons@);
    let mut n: u128 = 0;
    assert(kv.take(0) =~= Seq::<Seq<char>>::empty());
    for i in 0..keywords.len()
        invariant
            kv == text::views(keywords@),
            tv == text::views(texts@),
            n == hits(kv.take(i as int), tv),
            n <= i,
            text::views(reasons@) == with_reasons(start, kv.take(i as int), tv),
    {
        let ghost before = text::views(reasons@);
        proof {
            assert(kv.take(i + 1).drop_last() =~= kv.take(i as int));
            assert(kv.take(i + 1).last() == keywords@[i as int]@);
        }
        if one_contains(texts, keywords[i].as_str()) {
            n += 1;
            if !text::holds(reasons, keywords[i].as_str()) {
                reasons.push(keywords[i].clone());
                assert(text::views(reasons@) =~= before.push(keywords@[i as int]@));
            }
        }
    }
    assert(kv.take(kv.len() as int) =~= kv);
    n
}

/// Texts in small letters.
fn all_lowercase(texts: &Vec<String>) -> (r: Vec<String>)
    ensures
        text::views(r@) == lowercased(text::views(texts@)),
{
    let mut out: Vec<String> = Vec::new();
    for i in 0..texts.len()
        invariant
            text::views(out@) == lowercased(text::views(texts@).take(i as int)),
    {
        let ghost before = text::views(out@);
        let lower = text::to_lowercase(texts[i].as_str());
        let ghost shown = lower@;
        out.push(lower);
        proof {
            assert(text::views(out@) =~= before.push(shown));
            assert(lowercased(text::views(texts@).take(i + 1)) =~= before.push(shown));
        }
    }
    assert(text::views(texts@).take(texts@.len() as int) =~= text::views(texts@));
    out
}

/// The position of a path among matches, or their number.
fn find_match(matches: &Vec<DirectMatch>, path: &str) -> (r: usize)
    ensures
        r == match_position(direct_views(matches@), path@),
        r <= matches@.len(),
{
    let ghost all = direct_views(matches@);
    let wanted = path.to_string();
    assert(all.skip(0) =~= all);
    for i in 0..matches.len()
        invariant
            all == direct_views(matches@),
            wanted@ == path@,
            match_position(all, path@) == i + match_position(all.skip(i as int), path@),
    {
        assert(all.skip(i as int)[0] == matches@[i as int]@);
        if matches[i].path == wanted {
            return i;
        }
        assert(all.skip(i as int).drop_first() =~= all.skip(i + 1));
    }
    matches.len()
}

/// The files that some keyword fits, with points and reasons.
pub fn direct_matches(keywords: &Vec<String>, files: &Vec<FileWithExportsAndEnrichment>) -> (r: Vec<
    DirectMatch,
>)
    ensures
        direct_views(r@) == matches_of(text::views(keywords@), queries::listed_views(files@)),
{
    let ghost kv = text::views(keywords@);
    let ghost fv = queries::listed_views(files@);
    let mut out: Vec<DirectMatch> = Vec::new();
    assert(fv.take(0) =~= Seq::<ListedFile>::empty());
    assert(direct_views(out@) =~= Seq::<DirectView>::empty());
    for i in 0..files.len()
        invariant
            kv == text::views(keywords@),
            fv == queries::listed_views(files@),
            direct_views(out@) == matches_of(kv, fv.take(i as int)),
    {
        let file = &files[i];
        let ghost before = direct_views(out@);
        proof {
            assert(fv.take(i + 1).drop_last() =~= fv.take(i as int));
            assert(fv.take(i + 1).last() == file@);
        }
        let lower = text::to_lowercase(file.path.as_str());
        let parts = text::split_pieces(lower.as_str(), CharClass::SlashOrDot);
        let names = all_lowercase(&file.exports);
        let mut reasons: Vec<String> = Vec::new();
        assert(text::views(reasons@) =~= Seq::<Seq<char>>::empty());
        let in_path: u128 = collect_hits(keywords, &parts, &mut reasons);
        let in_exports: u128 = collect_hits(keywords, &names, &mut reasons);
        let points: u128 = 3 * in_path + 2 * in_exports;
        if points > 0 {
            let found = DirectMatch {
                path: file.path.clone(),
                rank: file.rank,
                points,
                match_reasons: reasons,
            };
            let ghost shown = found@;
            assert(shown =~= match_of(kv, file@));
            let at: usize = find_match(&out, file.path.as_str());
            if at < out.len() {
                out.set(at, found);
                assert(direct_views(out@) =~= before.update(at as int, shown));
            } else {
                out.push(found);
                assert(direct_views(out@) =~= before.push(shown));
            }
        }
    }
    assert(fv.take(fv.len() as int) =~= fv);
    out
}

// ---------------------------------------------------------------------------------------------
// Neighbours
// ---------------------------------------------------------------------------------------------

/// A file that some keyword fits, with its score and the score it gives its neighbours.
pub struct WeightedMatch {
    pub path: String,
    pub rank: u64,
    pub score: u64,
    pub neighbor_score: u64,
    pub match_reasons: Vec<String>,
}

/// A file with its score, its rank and the reasons for the score.
#[derive(Debug)]
pub struct ScoredFile {
    pub path: String,
    pub score: u64,
    pub rank: u64,
    pub match_reasons: Vec<String>,
}

/// What is said of a file with its score.
#[verifier::ext_equal]
pub struct ScoredView {
    pub path: Seq<char>,
    pub score: u64,
    pub rank: u64,
    pub reasons: Seq<Seq<char>>,
}

impl View for ScoredFile {
    type V = ScoredView;

    open spec fn view(&self) -> ScoredView {
        ScoredView {
            path: self.path@,
            score: self.score,
            rank: self.rank,
            reasons: text::views(self.match_reasons@),
        }
    }
}

/// What is said of a match: its score, and what it gives its neighbours.
#[verifier::ext_equal]
pub struct WeightedView {
    pub scored: ScoredView,
    pub neighbor_score: u64,
}

impl View for WeightedMatch {
    type V = WeightedView;

    open spec fn view(&self) -> WeightedView {
        WeightedView {
            scored: ScoredView {
                path: self.path@,
                score: self.score,
                rank: self.rank,
                reasons: text::views(self.match_reasons@),
            },
            neighbor_score: self.neighbor_score,
        }
    }
}

/// What is said of some files with scores.
pub open spec fn scored_views(v: Seq<ScoredFile>) -> Seq<ScoredView> {
    v.map_values(|s: ScoredFile| s@)
}

/// What is said of some matches.
pub open spec fn weighted_views(v: Seq<WeightedMatch>) -> Seq<WeightedView> {
    v.map_values(|w: WeightedMatch| w@)
}

/// The position of a path among scored files, or their number.
pub open spec fn position(scored: Seq<ScoredView>, path: Seq<char>) -> int
    decreases scored.len(),
{
    if scored.len() == 0 || scored[0].path == path {
        0
    } else {
        1 + position(scored.drop_first(), path)
    }
}

/// The rank of the last file with this path, or that of a file without rank.
pub open spec fn rank_of(files: Seq<ListedFile>, path: Seq<char>) -> u64
    decreases files.len(),
{
    if files.len() == 0 {
        0
    } else if files.last().path == path {
        files.last().rank
    } else {
        rank_of(files.drop_last(), path)
    }
}

/// The scored files after one neighbour of a match: it has at least the score that the match gives
/// its neighbours.
pub open spec fn with_neighbor(
    scored: Seq<ScoredView>,
    files: Seq<ListedFile>,
    parent: Seq<char>,
    score: u64,
    path: Seq<char>,
) -> Seq<ScoredView> {
    let i = position(scored, path);
    if i < scored.len() {
        if score > scored[i].score {
            scored.update(i, ScoredView { score, ..scored[i] })
        } else {
            scored
        }
    } else {
        scored.push(
            ScoredView {
                path,
                score,
                rank: rank_of(files, path),
                reasons: seq!["neighbor of "@ + parent],
            },
        )
    }
}

/// The scored files after some neighbours of a match.
pub open spec fn with_neighbors(
    scored: Seq<ScoredView>,
    files: Seq<ListedFile>,
    parent: Seq<char>,
    score: u64,
    deps: Seq<queries::DepView>,
) -> Seq<ScoredView>
    decreases deps.len(),
{
    if deps.len() == 0 {
        scored
    } else {
        with_neighbor(
            with_neighbors(scored, files, parent, score, deps.drop_last()),
            files,
            parent,
            score,
            deps.last().file_path,
        )
    }
}

/// The scored files after the neighbours of some matches: first the imports of each, then what
/// imports it.
pub open spec fn expanded(
    v: IndexView,
    files: Seq<ListedFile>,
    scored: Seq<ScoredView>,
    parents: Seq<WeightedView>,
) -> Seq<ScoredView>
    decreases parents.len(),
{
    if parents.len() == 0 {
        scored
    } else {
        let before = expanded(v, files, scored, parents.drop_last());
        let p = parents.last();
        let path = p.scored.path;
        let imports = with_neighbors(
            before,
            files,
            path,
            p.neighbor_score,
            queries::deps_of(v, path, false),
        );
        with_neighbors(
            imports,
            files,
            path,
            p.neighbor_score,
            queries::deps_of(v, path, true),
        )
    }
}

/// What scored files are sorted by: the larger score first.
pub open spec fn score_keys(scored: Seq<ScoredView>) -> Seq<(int, Seq<char>)> {
    scored.map_values(|s: ScoredView| (s.score as int, Seq::<char>::empty()))
}

/// The matches and their neighbours, by score.
pub open spec fn ranking(
    v: IndexView,
    files: Seq<ListedFile>,
    matches: Seq<WeightedView>,
) -> Seq<ScoredView> {
    let direct = matches.map_values(|w: WeightedView| w.scored);
    let all = expanded(v, files, direct, matches);
    order::order_of(score_keys(all)).map_values(|i: int| all[i])
}

/// The position of a path among scored files, or their number.
fn find_scored(scored: &Vec<ScoredFile>, path: &str) -> (r: usize)
    ensures
        r == position(scored_views(scored@), path@),
        r <= scored@.len(),
{
    let ghost all = scored_views(scored@);
    let wanted = path.to_string();
    assert(all.skip(0) =~= all);
    for i in 0..scored.len()
        invariant
            all == scored_views(scored@),
            wanted@ == path@,
            position(all, path@) == i + position(all.skip(i as int), path@),
    {
        assert(all.skip(i as int)[0] == scored@[i as int]@);
        if scored[i].path == wanted {
            return i;
        }
        assert(all.skip(i as int).drop_first() =~= all.skip(i + 1));
    }
    scored.len()
}

/// The rank of the last file with this path, or that of a file without rank.
fn find_rank(files: &Vec<FileWithExportsAndEnrichment>, path: &str) -> (r: u64)
    ensures
        r == rank_of(queries::listed_views(files@), path@),
{
    let ghost all = queries::listed_views(files@);
    let wanted = path.to_string();
    let mut n: usize = files.len();
    assert(all.take(n as int) =~= all);
    while n > 0
        invariant
            n <= files@.len(),
            all == queries::listed_views(files@),
            wanted@ == path@,
            rank_of(all, path@) == rank_of(all.take(n as int), path@),
        decreases n,
    {
        assert(all.take(n as int).last() == files@[n - 1]@);
        if files[n - 1].path == wanted {
            return files[n - 1].rank;
        }
        assert(all.take(n as int).drop_last() =~= all.take(n - 1));
        n -= 1;
    }
    0
}

/// Adds one neighbour of a match.
fn add_neighbor(
    scored: &mut Vec<ScoredFile>,
    files: &Vec<FileWithExportsAndEnrichment>,
    parent: &str,
    score: u64,
    path: &str,
)
    ensures
        scored_views(final(scored)@) == with_neighbor(
            scored_views(old(scored)@),
            queries::listed_views(files@),
            parent@,
            score,
            path@,
        ),
{
    let ghost before = scored_views(scored@);
    let i: usize = find_scored(scored, path);
    if i < scored.len() {
        assert(before[i as int] == scored@[i as int]@);
        if score > scored[i].score {
            let row = ScoredFile {
                path: scored[i].path.clone(),
                score,
                rank: scored[i].rank,
                match_reasons: text::copy_all(&scored[i].match_reasons),
            };
            let ghost shown = row@;
            scored.set(i, row);
            proof {
                assert(shown =~= (ScoredView { score, ..before[i as int] }));
                assert(scored_views(scored@) =~= before.update(i as int, shown));
            }
        }
    } else {
        let mut reasons: Vec<String> = Vec::new();
        reasons.push("neighbor of ".to_string().concat(parent));
        assert(text::views(reasons@) =~= seq!["neighbor of "@ + parent@]);
        let row = ScoredFile {
            path: path.to_string(),
            score,
            rank: find_rank(files, path),
            match_reasons: reasons,
        };
        let ghost shown = row@;
        scored.push(row);
        assert(scored_views(scored@) =~= before.push(shown));
    }
}

/// Adds the neighbours of a match in one direction.
fn add_neighbors(
    index: &Index,
    scored: &mut Vec<ScoredFile>,
    files: &Vec<FileWithExportsAndEnrichment>,
    parent: &str,
    score: u64,
    direction: &str,
)
    requires
        index.wf(),
    ensures
        scored_views(final(scored)@) == with_neighbors(
            scored_views(old(scored)@),
            queries::listed_views(files@),
            parent@,
            score,
            queries::deps_of(index@, parent@, queries::asks_importers(direction@)),
        ),
{
    let deps = queries::get_file_deps(index, parent, direction);
    let ghost dv = queries::dep_views(deps@);
    let ghost fv = queries::listed_views(files@);
    let ghost start = scored_views(scored@);
    assert(dv.take(0) =~= Seq::<queries::DepView>::empty());
    for i in 0..deps.len()
        invariant
            dv == queries::dep_views(deps@),
            fv == queries::listed_views(files@),
            scored_views(scored@) == with_neighbors(start, fv, parent@, score, dv.take(i as int)),
    {
        proof {
            assert(dv.take(i + 1).drop_last() =~= dv.take(i as int));
            assert(dv.take(i + 1).last() == deps@[i as int]@);
        }
        add_neighbor(scored, files, parent, score, deps[i].file_path.as_str());
    }
    assert(dv.take(dv.len() as int) =~= dv);
}

/// Adds the neighbours of the matches and sorts all files by score.
pub fn rank_matches(
    index: &Index,
    files: &Vec<FileWithExportsAndEnrichment>,
    matches: &Vec<WeightedMatch>,
) -> (r: Vec<ScoredFile>)
    requires
        index.wf(),
    ensures
        scored_views(r@) == ranking(
            index@,
            queries::listed_views(files@),
            weighted_views(matches@),
        ),
{
    let ghost v = index@;
    let ghost fv = queries::listed_views(files@);
    let ghost mv = weighted_views(matches@);
    let ghost plain = |w: WeightedView| w.scored;
    let mut scored: Vec<ScoredFile> = Vec::new();
    for i in 0..matches.len()
        invariant
            mv == weighted_views(matches@),
            plain == (|w: WeightedView| w.scored),
            scored_views(scored@) == mv.take(i as int).map_values(plain),
    {
        let ghost before = scored_views(scored@);
        let m = &matches[i];
        let row = ScoredFile {
            path: m.path.clone(),
            score: m.score,
            rank: m.rank,
            match_reasons: text::copy_all(&m.match_reasons),
        };
        let ghost shown = row@;
        scored.push(row);
        proof {
            assert(shown =~= m@.scored);
            assert(scored_views(scored@) =~= before.push(shown));
            assert(mv.take(i + 1).map_values(plain) =~= before.push(plain(mv[i as int])));
        }
    }
    proof {
        assert(mv.take(mv.len() as int) =~= mv);
        reveal_strlit("imports");
        reveal_strlit("importers");
        assert("imports"@.len() != "importers"@.len());
        assert(mv.take(0) =~= Seq::<WeightedView>::empty());
    }
    let ghost direct = scored_views(scored@);
    for i in 0..matches.len()
        invariant
            index.wf(),
            v == index@,
            fv == queries::listed_views(files@),
            mv == weighted_views(matches@),
            "imports"@ != "importers"@,
            scored_views(scored@) == expanded(v, fv, direct, mv.take(i as int)),
    {
        let m = &matches[i];
        proof {
            assert(mv.take(i + 1).drop_last() =~= mv.take(i as int));
            assert(mv.take(i + 1).last() == m@);
        }
        add_neighbors(index, &mut scored, files, m.path.as_str(), m.neighbor_score, "imports");
        add_neighbors(index, &mut scored, files, m.path.as_str(), m.neighbor_score, "importers");
    }
    let ghost all = scored_views(scored@);
    assert(mv.take(mv.len() as int) =~= mv);
    let mut keys: Vec<SortKey> = Vec::new();
    for i in 0..scored.len()
        invariant
            all == scored_views(scored@),
            order::key_views(keys@) == score_keys(all.take(i as int)),
    {
        let ghost before = order::key_views(keys@);
        let key = SortKey { weight: scored[i].score as i128, name: String::new() };
        let ghost shown = key@;
        keys.push(key);
        proof {
            assert(shown.1 =~= Seq::<char>::empty());
            assert(order::key_views(keys@) =~= before.push(shown));
            assert(all[i as int] == scored@[i as int]@);
            assert(score_keys(all.take(i + 1)) =~= before.push(shown));
        }
    }
    assert(all.take(all.len() as int) =~= all);
    let sorted = order::sort(&keys);
    let ghost positions = order::positions(sorted@);
    let ghost show = |i: int| all[i];
    let mut out: Vec<ScoredFile> = Vec::new();
    for k in 0..sorted.len()
        invariant
            all == scored_views(scored@),
            positions == order::positions(sorted@),
            order::is_order(score_keys(all), positions),
            show == (|i: int| all[i]),
            scored_views(out@) == positions.take(k as int).map_values(show),
    {
        let ghost before = scored_views(out@);
        assert(0 <= positions[k as int] < all.len());
        let s = &scored[sorted[k]];
        let row = ScoredFile {
            path: s.path.clone(),
            score: s.score,
            rank: s.rank,
            match_reasons: text::copy_all(&s.match_reasons),
        };
        let ghost shown = row@;
        out.push(row);
        proof {
            assert(all[positions[k as int]] == s@);
            assert(shown =~= s@);
            assert(scored_views(out@) =~= before.push(shown));
            assert(positions.take(k + 1).map_values(show) =~= before.push(
                show(positions[k as int]),
            ));
        }
    }
    assert(positions.take(positions.len() as int) =~= positions);
    out
}

/// Whether matches are weighted by the two functions: the first gives a score to points and a rank,
/// the second the score of a neighbour to the score of a match.
pub open spec fn weighted_by<F: Fn(u128, u64) -> u64, G: Fn(u64) -> u64>(
    direct: Seq<DirectView>,
    weighted: Seq<WeightedView>,
    weigh: F,
    damp: G,
) -> bool {
    &&& weighted.len() == direct.len()
    &&& forall|i: int|
        0 <= i < direct.len() ==> {
            let w = #[trigger] weighted[i];
            &&& w.scored.path == direct[i].path
            &&& w.scored.rank == direct[i].rank
            &&& w.scored.reasons == direct[i].reasons
            &&& call_ensures(weigh, (direct[i].points as u128, direct[i].rank), w.scored.score)
            &&& call_ensures(damp, (w.scored.score,), w.neighbor_score)
        }
}

/// Scores files by keywords: direct matches, weighted by `weigh` from points and rank, and their
/// neighbours with scores that `damp` makes of the scores of the matches; the larger score first.
pub fn score_files<F: Fn(u128, u64) -> u64, G: Fn(u64) -> u64>(
    keywords: &Vec<String>,
    files: &Vec<FileWithExportsAndEnrichment>,
    index: &Index,
    weigh: F,
    damp: G,
) -> (r: Vec<ScoredFile>)
    requires
        index.wf(),
        forall|points: u128, rank: u64| call_requires(weigh, (points, rank)),
        forall|score: u64| call_requires(damp, (score,)),
    ensures
        exists|weighted: Seq<WeightedView>| #[trigger]
            weighted_by(
                matches_of(text::views(keywords@), queries::listed_views(files@)),
                weighted,
                weigh,
                damp,
            ) && scored_views(r@) == ranking(index@, queries::listed_views(files@), weighted),
{
    let direct = direct_matches(keywords, files);
    let ghost dv = direct_views(direct@);
    let mut weighted: Vec<WeightedMatch> = Vec::new();
    for i in 0..direct.len()
        invariant
            dv == direct_views(direct@),
            forall|points: u128, rank: u64| call_requires(weigh, (points, rank)),
            forall|score: u64| call_requires(damp, (score,)),
            weighted_by(dv.take(i as int), weighted_views(weighted@), weigh, damp),
    {
        let d = &direct[i];
        let ghost before = weighted_views(weighted@);
        let score: u64 = weigh(d.points, d.rank);
        let neighbor_score: u64 = damp(score);
        let row = WeightedMatch {
            path: d.path.clone(),
            rank: d.rank,
            score,
            neighbor_score,
            match_reasons: text::copy_all(&d.match_reasons),
        };
        let ghost shown = row@;
        weighted.push(row);
        proof {
            let after = weighted_views(weighted@);
            assert(after =~= before.push(shown));
            assert(dv[i as int] == d@);
            assert forall|k: int| 0 <= k < dv.take(i + 1).len() implies {
                let w = #[trigger] after[k];
                let e = dv.take(i + 1)[k];
                &&& w.scored.path == e.path
                &&& w.scored.rank == e.rank
                &&& w.scored.reasons == e.reasons
                &&& call_ensures(weigh, (e.points as u128, e.rank), w.scored.score)
                &&& call_ensures(damp, (w.scored.score,), w.neighbor_score)
            } by {
                if k < i {
                    assert(after[k] == before[k]);
                    assert(dv.take(i + 1)[k] == dv.take(i as int)[k]);
                }
            }
        }
    }
    assert(dv.take(dv.len() as int) =~= dv);
    rank_matches(index, files, &weighted)
}

// ---------------------------------------------------------------------------------------------
// What matches and neighbours get
// ---------------------------------------------------------------------------------------------

/// A keyword has what a word has in small letters, without what is no letter or digit before and
/// behind it, and begins and ends with a letter or digit.
pub proof fn law_keyword_form(word: Seq<char>) -> (r: (Seq<char>, Seq<char>))
    ensures
        text::lowercase(word) == r.0 + keyword(word) + r.1,
        forall|i: int| 0 <= i < r.0.len() ==> !text::is_alphanumeric(#[trigger] r.0[i]),
        forall|i: int| 0 <= i < r.1.len() ==> !text::is_alphanumeric(#[trigger] r.1[i]),
        keyword(word).len() > 0 ==> text::is_alphanumeric(keyword(word)[0])
            && text::is_alphanumeric(keyword(word).last()),
{
    text::law_trimmed(text::lowercase(word), CharClass::NotAlphanumeric)
}

/// How many keywords some texts hold.
proof fn lemma_hits(keywords: Seq<Seq<char>>, texts: Seq<Seq<char>>)
    ensures
        hits(keywords, texts) == keywords.filter(|k: Seq<char>| any_contains(texts, k)).len(),
{
    lists::lemma_count(
        keywords,
        |k: Seq<char>| any_contains(texts, k),
        |s: Seq<Seq<char>>| hits(s, texts),
    );
}

/// The reasons with the keywords that some texts hold.
proof fn lemma_reasons(
    reasons: Seq<Seq<char>>,
    keywords: Seq<Seq<char>>,
    texts: Seq<Seq<char>>,
    word: Seq<char>,
)
    requires
        reasons.no_duplicates(),
    ensures
        with_reasons(reasons, keywords, texts).no_duplicates(),
        reasons.is_prefix_of(with_reasons(reasons, keywords, texts)),
        with_reasons(reasons, keywords, texts).contains(word) == (reasons.contains(word) || (
        keywords.contains(word) && any_contains(texts, word))),
    decreases keywords.len(),
{
    if keywords.len() == 0 {
        assert(reasons =~= reasons.take(reasons.len() as int));
    } else {
        let short = keywords.drop_last();
        let last = keywords.last();
        lemma_reasons(reasons, short, texts, word);
        lemma_reasons(reasons, short, texts, last);
        let before = with_reasons(reasons, short, texts);
        let after = with_reasons(reasons, keywords, texts);
        assert forall|a: int, b: int| 0 <= a < b < after.len() implies after[a] != after[b] by {
            if b == before.len() {
                assert(before.contains(before[a]));
            }
        }
        assert(reasons =~= after.take(reasons.len() as int)) by {
            assert(reasons =~= before.take(reasons.len() as int));
        }
        if short.contains(word) {
            let k = choose|k: int| 0 <= k < short.len() && short[k] == word;
            assert(keywords[k] == word);
        }
        if keywords.contains(word) && word != last {
            let k = choose|k: int| 0 <= k < keywords.len() && keywords[k] == word;
            assert(short[k] == word);
        }
        assert(keywords[keywords.len() - 1] == last);
        if before.contains(word) {
            let k = choose|k: int| 0 <= k < before.len() && before[k] == word;
            assert(after[k] == word);
        }
        if after.contains(word) && !before.contains(word) {
            let k = choose|k: int| 0 <= k < after.len() && after[k] == word;
            if k < before.len() {
                assert(before[k] == word);
            }
        }
        if any_contains(texts, last) && !before.contains(last) {
            assert(after[before.len() as int] == last);
        }
    }
}

/// A file has three points for each keyword that a part of its path holds, and two for each keyword
/// that the name of one of its exports holds, whatever the capitals in path and names are. Its
/// reasons are exactly those keywords, each once.
pub proof fn law_points(keywords: Seq<Seq<char>>, file: ListedFile, word: Seq<char>)
    ensures
        ({
            let parts = text::pieces(text::lowercase(file.path), CharClass::SlashOrDot);
            let in_path = |k: Seq<char>|
                exists|i: int| 0 <= i < parts.len() && text::contains(#[trigger] parts[i], k);
            let in_exports = |k: Seq<char>|
                exists|i: int|
                    0 <= i < file.exports.len() && text::contains(
                        text::lowercase(#[trigger] file.exports[i]),
                        k,
                    );
            let m = match_of(keywords, file);
            &&& m.path == file.path
            &&& m.rank == file.rank
            &&& m.points == 3 * keywords.filter(in_path).len() + 2 * keywords.filter(
                in_exports,
            ).len()
            &&& m.reasons.no_duplicates()
            &&& m.reasons.contains(word) == (keywords.contains(word) && (in_path(word)
                || in_exports(word)))
        }),
{
    let parts = text::pieces(text::lowercase(file.path), CharClass::SlashOrDot);
    let names = lowercased(file.exports);
    let in_path = |k: Seq<char>|
        exists|i: int| 0 <= i < parts.len() && text::contains(#[trigger] parts[i], k);
    let in_exports = |k: Seq<char>|
        exists|i: int|
            0 <= i < file.exports.len() && text::contains(
                text::lowercase(#[trigger] file.exports[i]),
                k,
            );
    assert forall|k: Seq<char>| #[trigger] any_contains(parts, k) == in_path(k) by {
        if any_contains(parts, k) {
            let i = choose|i: int| 0 <= i < parts.len() && text::contains(#[trigger] parts[i], k);
            assert(text::contains(parts[i], k));
        }
        if in_path(k) {
            let i = choose|i: int| 0 <= i < parts.len() && text::contains(#[trigger] parts[i], k);
            assert(text::contains(parts[i], k));
        }
    }
    assert forall|k: Seq<char>| #[trigger] any_contains(names, k) == in_exports(k) by {
        if any_contains(names, k) {
            let i = choose|i: int| 0 <= i < names.len() && text::contains(#[trigger] names[i], k);
            assert(text::contains(text::lowercase(file.exports[i]), k));
        }
        if in_exports(k) {
            let i = choose|i: int|
                0 <= i < file.exports.len() && text::contains(
                    text::lowercase(#[trigger] file.exports[i]),
                    k,
                );
            assert(text::contains(names[i], k));
        }
    }
    lemma_hits(keywords, parts);
    lemma_hits(keywords, names);
    lists::lemma_same_choice(keywords, |k: Seq<char>| any_contains(parts, k), in_path);
    lists::lemma_same_choice(keywords, |k: Seq<char>| any_contains(names, k), in_exports);
    let none = Seq::<Seq<char>>::empty();
    lemma_reasons(none, keywords, parts, word);
    lemma_reasons(with_reasons(none, keywords, parts), keywords, names, word);
}

/// Matching by path does not depend on capitals: a file with a part of its path that holds a
/// keyword in any mix of capitals and small letters has at least three points, and the keyword is
/// among its reasons.
pub proof fn law_capitals_in_paths_match(
    keywords: Seq<Seq<char>>,
    file: ListedFile,
    word: Seq<char>,
    part: Seq<char>,
)
    requires
        keywords.contains(word),
        text::pieces(text::lowercase(file.path), CharClass::SlashOrDot).contains(part),
        text::contains(part, word),
    ensures
        match_of(keywords, file).points >= 3,
        match_of(keywords, file).reasons.contains(word),
{
    law_points(keywords, file, word);
    let parts = text::pieces(text::lowercase(file.path), CharClass::SlashOrDot);
    let in_path = |k: Seq<char>|
        exists|i: int| 0 <= i < parts.len() && text::contains(#[trigger] parts[i], k);
    let i = choose|i: int| 0 <= i < parts.len() && parts[i] == part;
    assert(text::contains(parts[i], word));
    assert(in_path(word));
    lists::lemma_kept_items(keywords, in_path, word);
    assert(keywords.filter(in_path).contains(word));
    assert(keywords.filter(in_path).len() >= 1);
}

/// A path that no match has stands nowhere among the matches.
proof fn lemma_match_position(matches: Seq<DirectView>, path: Seq<char>)
    requires
        forall|i: int| 0 <= i < matches.len() ==> (#[trigger] matches[i]).path != path,
    ensures
        match_position(matches, path) == matches.len(),
    decreases matches.len(),
{
    if matches.len() > 0 {
        assert(matches[0].path != path);
        let rest = matches.drop_first();
        assert forall|i: int| 0 <= i < rest.len() implies (#[trigger] rest[i]).path != path by {
            assert(rest[i] == matches[i + 1]);
        }
        lemma_match_position(rest, path);
    }
}

/// The files that some keyword fits are all those with points, in their order, where no two files
/// have one path.
pub proof fn law_matches(keywords: Seq<Seq<char>>, files: Seq<ListedFile>)
    requires
        forall|i: int, j: int|
            0 <= i < j < files.len() ==> (#[trigger] files[i]).path != (#[trigger] files[j]).path,
    ensures
        matches_of(keywords, files) == files.map_values(
            |f: ListedFile| match_of(keywords, f),
        ).filter(|m: DirectView| m.points > 0),
        forall|k: int|
            0 <= k < matches_of(keywords, files).len() ==> exists|i: int|
                0 <= i < files.len() && (#[trigger] files[i]).path == (#[trigger] matches_of(
                    keywords,
                    files,
                )[k]).path,
    decreases files.len(),
{
    reveal(Seq::filter);
    let show = |f: ListedFile| match_of(keywords, f);
    let keep = |m: DirectView| m.points > 0;
    let all = matches_of(keywords, files);
    if files.len() > 0 {
        let short = files.drop_last();
        assert forall|i: int, j: int| 0 <= i < j < short.len() implies (#[trigger] short[i]).path
            != (#[trigger] short[j]).path by {
            assert(files[i].path != files[j].path);
        }
        law_matches(keywords, short);
        let before = matches_of(keywords, short);
        let last = match_of(keywords, files.last());
        assert forall|k: int| 0 <= k < before.len() implies (#[trigger] before[k]).path
            != last.path by {
            let i = choose|i: int|
                0 <= i < short.len() && (#[trigger] short[i]).path == before[k].path;
            assert(files[i].path != files[files.len() - 1].path);
        }
        lemma_match_position(before, last.path);
        assert(files.map_values(show).drop_last() =~= short.map_values(show));
        assert(files.map_values(show).last() == last);
        assert forall|k: int| 0 <= k < all.len() implies exists|i: int|
            0 <= i < files.len() && (#[trigger] files[i]).path == (#[trigger] all[k]).path by {
            if k < before.len() {
                assert(all[k] == before[k]);
                let i = choose|i: int|
                    0 <= i < short.len() && (#[trigger] short[i]).path == before[k].path;
                assert(files[i].path == all[k].path);
            } else {
                assert(files[files.len() - 1].path == all[k].path);
            }
        }
    }
    assert(all =~= files.map_values(show).filter(keep));
}

/// Whether an edge joins two files, in either direction.
pub open spec fn adjacent(v: IndexView, a: Seq<char>, b: Seq<char>) -> bool {
    deps::leads_to(v, false, a, b) || deps::leads_to(v, true, a, b)
}

/// Whether one of the matches gives a path a score as its neighbour.
pub open spec fn given_by(
    v: IndexView,
    matches: Seq<WeightedView>,
    path: Seq<char>,
    score: u64,
) -> bool {
    exists|m: int|
        0 <= m < matches.len() && (#[trigger] matches[m]).neighbor_score == score && adjacent(
            v,
            matches[m].scored.path,
            path,
        )
}

/// Whether a scored file is said to be a neighbour of a match that it is a neighbour of.
pub open spec fn is_neighbor(
    v: IndexView,
    files: Seq<ListedFile>,
    matches: Seq<WeightedView>,
    s: ScoredView,
) -> bool {
    s.rank == rank_of(files, s.path) && exists|m: int|
        0 <= m < matches.len() && s.reasons == seq![
            "neighbor of "@ + (#[trigger] matches[m]).scored.path,
        ] && adjacent(v, matches[m].scored.path, s.path)
}

/// Whether scored files grew by neighbours: those that were there stand where they stood and have
/// their score or a larger one that a match gives them, and those that are new are neighbours.
spec fn grew(
    v: IndexView,
    files: Seq<ListedFile>,
    matches: Seq<WeightedView>,
    before: Seq<ScoredView>,
    after: Seq<ScoredView>,
) -> bool {
    &&& before.len() <= after.len()
    &&& forall|i: int|
        0 <= i < before.len() ==> {
            &&& (#[trigger] after[i]).path == before[i].path
            &&& after[i].rank == before[i].rank
            &&& after[i].reasons == before[i].reasons
            &&& after[i].score >= before[i].score
            &&& after[i].score == before[i].score || given_by(
                v,
                matches,
                after[i].path,
                after[i].score,
            )
        }
    &&& forall|i: int|
        before.len() <= i < after.len() ==> is_neighbor(v, files, matches, #[trigger] after[i])
            && given_by(v, matches, after[i].path, after[i].score)
}

/// Whether no two scored files have one path.
spec fn paths_once(scored: Seq<ScoredView>) -> bool {
    forall|i: int, j: int|
        0 <= i < j < scored.len() ==> (#[trigger] scored[i]).path != (#[trigger] scored[j]).path
}

/// Whether a path has at least a score.
spec fn has_score(scored: Seq<ScoredView>, path: Seq<char>, score: u64) -> bool {
    exists|i: int|
        0 <= i < scored.len() && (#[trigger] scored[i]).path == path && scored[i].score >= score
}

/// Growing twice is growing.
proof fn lemma_grew_twice(
    v: IndexView,
    files: Seq<ListedFile>,
    matches: Seq<WeightedView>,
    a: Seq<ScoredView>,
    b: Seq<ScoredView>,
    c: Seq<ScoredView>,
)
    requires
        grew(v, files, matches, a, b),
        grew(v, files, matches, b, c),
    ensures
        grew(v, files, matches, a, c),
{
    assert forall|i: int| 0 <= i < a.len() implies {
        &&& (#[trigger] c[i]).path == a[i].path
        &&& c[i].rank == a[i].rank
        &&& c[i].reasons == a[i].reasons
        &&& c[i].score >= a[i].score
        &&& c[i].score == a[i].score || given_by(v, matches, c[i].path, c[i].score)
    } by {
        assert(b[i].path == a[i].path);
        assert(c[i].path == b[i].path);
    }
    assert forall|i: int| a.len() <= i < c.len() implies is_neighbor(
        v,
        files,
        matches,
        #[trigger] c[i],
    ) && given_by(v, matches, c[i].path, c[i].score) by {
        if i < b.len() {
            assert(is_neighbor(v, files, matches, b[i]));
            assert(c[i].path == b[i].path);
            let m = choose|m: int|
                0 <= m < matches.len() && b[i].reasons == seq![
                    "neighbor of "@ + (#[trigger] matches[m]).scored.path,
                ] && adjacent(v, matches[m].scored.path, b[i].path);
            assert(c[i].reasons == seq!["neighbor of "@ + matches[m].scored.path]);
        }
    }
}

/// Scores that are there stay or grow.
proof fn lemma_score_stays(
    v: IndexView,
    files: Seq<ListedFile>,
    matches: Seq<WeightedView>,
    a: Seq<ScoredView>,
    b: Seq<ScoredView>,
    path: Seq<char>,
    score: u64,
)
    requires
        grew(v, files, matches, a, b),
        has_score(a, path, score),
    ensures
        has_score(b, path, score),
{
    let i = choose|i: int| 0 <= i < a.len() && (#[trigger] a[i]).path == path && a[i].score >= score;
    assert(b[i].path == path && b[i].score >= score);
}

/// Where a path stands among scored files.
proof fn lemma_position(scored: Seq<ScoredView>, path: Seq<char>)
    ensures
        0 <= position(scored, path) <= scored.len(),
        position(scored, path) < scored.len() ==> scored[position(scored, path)].path == path,
        forall|i: int| 0 <= i < position(scored, path) ==> (#[trigger] scored[i]).path != path,
    decreases scored.len(),
{
    if scored.len() > 0 && scored[0].path != path {
        let rest = scored.drop_first();
        lemma_position(rest, path);
        assert forall|i: int| 0 <= i < position(scored, path) implies (#[trigger] scored[i]).path
            != path by {
            if i > 0 {
                assert(rest[i - 1] == scored[i]);
            }
        }
    }
}

/// A neighbour of a match gets the score that the match gives.
proof fn lemma_with_neighbor(
    v: IndexView,
    files: Seq<ListedFile>,
    matches: Seq<WeightedView>,
    scored: Seq<ScoredView>,
    m: int,
    path: Seq<char>,
)
    requires
        paths_once(scored),
        0 <= m < matches.len(),
        adjacent(v, matches[m].scored.path, path),
    ensures
        ({
            let after = with_neighbor(
                scored,
                files,
                matches[m].scored.path,
                matches[m].neighbor_score,
                path,
            );
            &&& grew(v, files, matches, scored, after)
            &&& paths_once(after)
            &&& has_score(after, path, matches[m].neighbor_score)
        }),
{
    let score = matches[m].neighbor_score;
    let after = with_neighbor(scored, files, matches[m].scored.path, score, path);
    lemma_position(scored, path);
    let i = position(scored, path);
    assert(given_by(v, matches, path, score));
    if i < scored.len() {
        assert(after[i].path == path && after[i].score >= score);
    } else {
        assert(after[scored.len() as int].path == path);
        assert(is_neighbor(v, files, matches, after[scored.len() as int]));
    }
    assert forall|a: int, b: int| 0 <= a < b < after.len() implies (#[trigger] after[a]).path != (
    #[trigger] after[b]).path by {
        if b < scored.len() {
            assert(scored[a].path != scored[b].path);
        } else {
            assert(scored[a].path != path);
        }
    }
}

/// The neighbours of a match in one direction each get the score that the match gives.
proof fn lemma_with_neighbors(
    v: IndexView,
    files: Seq<ListedFile>,
    matches: Seq<WeightedView>,
    scored: Seq<ScoredView>,
    m: int,
    importers: bool,
    n: int,
    k: int,
)
    requires
        paths_once(scored),
        0 <= m < matches.len(),
        0 <= n <= queries::deps_of(v, matches[m].scored.path, importers).len(),
    ensures
        ({
            let deps = queries::deps_of(v, matches[m].scored.path, importers);
            let after = with_neighbors(
                scored,
                files,
                matches[m].scored.path,
                matches[m].neighbor_score,
                deps.take(n),
            );
            &&& grew(v, files, matches, scored, after)
            &&& paths_once(after)
            &&& 0 <= k < n ==> has_score(after, deps[k].file_path, matches[m].neighbor_score)
        }),
    decreases n,
{
    let parent = matches[m].scored.path;
    let score = matches[m].neighbor_score;
    let deps = queries::deps_of(v, parent, importers);
    if n > 0 {
        lemma_with_neighbors(v, files, matches, scored, m, importers, n - 1, k);
        assert(deps.take(n).drop_last() =~= deps.take(n - 1));
        let before = with_neighbors(scored, files, parent, score, deps.take(n - 1));
        let path = deps[n - 1].file_path;
        assert(deps::leads_to(v, importers, parent, path));
        lemma_with_neighbor(v, files, matches, before, m, path);
        let after = with_neighbor(before, files, parent, score, path);
        lemma_grew_twice(v, files, matches, scored, before, after);
        if 0 <= k < n - 1 {
            lemma_score_stays(v, files, matches, before, after, deps[k].file_path, score);
        }
    }
}

/// All neighbours of the first matches get their scores.
proof fn lemma_expanded(
    v: IndexView,
    files: Seq<ListedFile>,
    matches: Seq<WeightedView>,
    scored: Seq<ScoredView>,
    n: int,
    m: int,
    path: Seq<char>,
)
    requires
        paths_once(scored),
        0 <= n <= matches.len(),
    ensures
        ({
            let after = expanded(v, files, scored, matches.take(n));
            &&& grew(v, files, matches, scored, after)
            &&& paths_once(after)
            &&& 0 <= m < n && adjacent(v, matches[m].scored.path, path) ==> has_score(
                after,
                path,
                matches[m].neighbor_score,
            )
        }),
    decreases n,
{
    if n > 0 {
        lemma_expanded(v, files, matches, scored, n - 1, m, path);
        assert(matches.take(n).drop_last() =~= matches.take(n - 1));
        let before = expanded(v, files, scored, matches.take(n - 1));
        let parent = matches[n - 1].scored.path;
        let score = matches[n - 1].neighbor_score;
        let imports = queries::deps_of(v, parent, false);
        let importers = queries::deps_of(v, parent, true);
        let a = if deps::leads_to(v, false, parent, path) {
            choose|k: int| 0 <= k < imports.len() && (#[trigger] imports[k]).file_path == path
        } else {
            -1
        };
        let b = if deps::leads_to(v, true, parent, path) {
            choose|k: int| 0 <= k < importers.len() && (#[trigger] importers[k]).file_path == path
        } else {
            -1
        };
        lemma_with_neighbors(v, files, matches, before, n - 1, false, imports.len() as int, a);
        assert(imports.take(imports.len() as int) =~= imports);
        let middle = with_neighbors(before, files, parent, score, imports);
        lemma_with_neighbors(v, files, matches, middle, n - 1, true, importers.len() as int, b);
        assert(importers.take(importers.len() as int) =~= importers);
        let after = with_neighbors(middle, files, parent, score, importers);
        lemma_grew_twice(v, files, matches, scored, before, middle);
        lemma_grew_twice(v, files, matches, scored, middle, after);
        if 0 <= m < n - 1 && adjacent(v, matches[m].scored.path, path) {
            lemma_score_stays(
                v,
                files,
                matches,
                before,
                middle,
                path,
                matches[m].neighbor_score,
            );
            lemma_score_stays(
                v,
                files,
                matches,
                middle,
                after,
                path,
                matches[m].neighbor_score,
            );
        } else if m == n - 1 && deps::leads_to(v, false, parent, path) {
            lemma_score_stays(v, files, matches, middle, after, path, score);
        }
    }
}

/// The suggestions stand in the order of their scores, the larger first, no file twice.
pub proof fn law_ranking_sorted(v: IndexView, files: Seq<ListedFile>, matches: Seq<WeightedView>)
    requires
        forall|i: int, j: int|
            0 <= i < j < matches.len() ==> (#[trigger] matches[i]).scored.path != (
            #[trigger] matches[j]).scored.path,
    ensures
        forall|a: int, b: int|
            0 <= a < b < ranking(v, files, matches).len() ==> (#[trigger] ranking(
                v,
                files,
                matches,
            )[a]).score >= (#[trigger] ranking(v, files, matches)[b]).score,
        forall|a: int, b: int|
            0 <= a < b < ranking(v, files, matches).len() ==> (#[trigger] ranking(
                v,
                files,
                matches,
            )[a]).path != (#[trigger] ranking(v, files, matches)[b]).path,
{
    let direct = matches.map_values(|w: WeightedView| w.scored);
    assert forall|i: int, j: int| 0 <= i < j < direct.len() implies (#[trigger] direct[i]).path != (
    #[trigger] direct[j]).path by {
        assert(matches[i].scored.path != matches[j].scored.path);
    }
    lemma_expanded(v, files, matches, direct, matches.len() as int, 0, Seq::empty());
    assert(matches.take(matches.len() as int) =~= matches);
    let all = expanded(v, files, direct, matches);
    let keys = score_keys(all);
    order::law_sorted(keys);
    let order = order::order_of(keys);
    let r = ranking(v, files, matches);
    assert forall|a: int, b: int| 0 <= a < b < r.len() implies (#[trigger] r[a]).score >= (
    #[trigger] r[b]).score && r[a].path != r[b].path by {
        assert(keys[order[a]].0 >= keys[order[b]].0);
        assert(order[a] != order[b]);
        if order[a] < order[b] {
            assert(all[order[a]].path != all[order[b]].path);
        } else {
            assert(all[order[b]].path != all[order[a]].path);
        }
    }
}

/// Each match is suggested with its rank and reasons and at least its score, and each file that it
/// imports or that imports it with at least the score that it gives its neighbours.
pub proof fn law_matches_and_neighbors_suggested(
    v: IndexView,
    files: Seq<ListedFile>,
    matches: Seq<WeightedView>,
    m: int,
    path: Seq<char>,
)
    requires
        forall|i: int, j: int|
            0 <= i < j < matches.len() ==> (#[trigger] matches[i]).scored.path != (
            #[trigger] matches[j]).scored.path,
        0 <= m < matches.len(),
    ensures
        exists|k: int|
            0 <= k < ranking(v, files, matches).len() && (#[trigger] ranking(
                v,
                files,
                matches,
            )[k]).path == matches[m].scored.path && ranking(v, files, matches)[k].rank
                == matches[m].scored.rank && ranking(v, files, matches)[k].reasons
                == matches[m].scored.reasons && ranking(v, files, matches)[k].score
                >= matches[m].scored.score,
        adjacent(v, matches[m].scored.path, path) ==> exists|k: int|
            0 <= k < ranking(v, files, matches).len() && (#[trigger] ranking(
                v,
                files,
                matches,
            )[k]).path == path && ranking(v, files, matches)[k].score >= matches[m].neighbor_score,
{
    let direct = matches.map_values(|w: WeightedView| w.scored);
    assert forall|i: int, j: int| 0 <= i < j < direct.len() implies (#[trigger] direct[i]).path != (
    #[trigger] direct[j]).path by {
        assert(matches[i].scored.path != matches[j].scored.path);
    }
    lemma_expanded(v, files, matches, direct, matches.len() as int, m, path);
    assert(matches.take(matches.len() as int) =~= matches);
    let all = expanded(v, files, direct, matches);
    let keys = score_keys(all);
    order::law_sorted(keys);
    let order = order::order_of(keys);
    let r = ranking(v, files, matches);
    assert(all[m].path == direct[m].path);
    assert(order.contains(m));
    let k = choose|k: int| 0 <= k < order.len() && order[k] == m;
    assert(r[k] == all[m]);
    if adjacent(v, matches[m].scored.path, path) {
        let i = choose|i: int|
            0 <= i < all.len() && (#[trigger] all[i]).path == path && all[i].score
                >= matches[m].neighbor_score;
        assert(order.contains(i));
        let j = choose|j: int| 0 <= j < order.len() && order[j] == i;
        assert(r[j] == all[i]);
    }
}

/// Nothing else is suggested: each suggestion is a match, with its own score or one that a match
/// gives it as a neighbour, or a neighbour of a match with a score that a match gives it.
pub proof fn law_suggestions_sound(
    v: IndexView,
    files: Seq<ListedFile>,
    matches: Seq<WeightedView>,
    k: int,
)
    requires
        forall|i: int, j: int|
            0 <= i < j < matches.len() ==> (#[trigger] matches[i]).scored.path != (
            #[trigger] matches[j]).scored.path,
        0 <= k < ranking(v, files, matches).len(),
    ensures
        ({
            let s = ranking(v, files, matches)[k];
            ||| exists|m: int|
                0 <= m < matches.len() && s.path == (#[trigger] matches[m]).scored.path && s.rank
                    == matches[m].scored.rank && s.reasons == matches[m].scored.reasons && (s.score
                    == matches[m].scored.score || given_by(v, matches, s.path, s.score))
            ||| is_neighbor(v, files, matches, s) && given_by(v, matches, s.path, s.score)
        }),
{
    let direct = matches.map_values(|w: WeightedView| w.scored);
    assert forall|i: int, j: int| 0 <= i < j < direct.len() implies (#[trigger] direct[i]).path != (
    #[trigger] direct[j]).path by {
        assert(matches[i].scored.path != matches[j].scored.path);
    }
    lemma_expanded(v, files, matches, direct, matches.len() as int, 0, Seq::empty());
    assert(matches.take(matches.len() as int) =~= matches);
    let all = expanded(v, files, direct, matches);
    let keys = score_keys(all);
    order::law_sorted(keys);
    let i = order::order_of(keys)[k];
    if i < direct.len() {
        assert(all[i].path == direct[i].path);
        assert(matches[i].scored == direct[i]);
    } else {
        assert(is_neighbor(v, files, matches, all[i]));
    }
}

/// A file has the rank of the last listed file with its path, or none where it is not listed.
pub proof fn law_rank_of_listed(files: Seq<ListedFile>, path: Seq<char>)
    ensures
        forall|i: int|
            0 <= i < files.len() && (#[trigger] files[i]).path == path && (forall|j: int|
                i < j < files.len() ==> (#[trigger] files[j]).path != path) ==> rank_of(files, path)
                == files[i].rank,
        (forall|j: int| 0 <= j < files.len() ==> (#[trigger] files[j]).path != path) ==> rank_of(
            files,
            path,
        ) == 0,
    decreases files.len(),
{
    if files.len() > 0 && files.last().path != path {
        let short = files.drop_last();
        law_rank_of_listed(short, path);
        assert forall|i: int|
            0 <= i < files.len() && (#[trigger] files[i]).path == path && (forall|j: int|
                i < j < files.len() ==> (#[trigger] files[j]).path != path) implies rank_of(
            files,
            path,
        ) == files[i].rank by {
            assert(short[i] == files[i]);
            assert forall|j: int| i < j < short.len() implies (#[trigger] short[j]).path != path by {
                assert(files[j].path != path);
            }
        }
        if forall|j: int| 0 <= j < files.len() ==> (#[trigger] files[j]).path != path {
            assert forall|j: int| 0 <= j < short.len() implies (#[trigger] short[j]).path != path by {
                assert(files[j].path != path);
            }
        }
    } else if files.len() > 0 {
        assert forall|i: int|
            0 <= i < files.len() && (#[trigger] files[i]).path == path && (forall|j: int|
                i < j < files.len() ==> (#[trigger] files[j]).path != path) implies rank_of(
            files,
            path,
        ) == files[i].rank by {
            assert(files[files.len() - 1].path == path);
            assert(i == files.len() - 1);
        }
        assert(files[files.len() - 1].path == path);
    }
}

/// The words that say nothing of what a task is about are left out of its keywords, and no others.
pub proof fn law_stop_words(word: Seq<char>)
    ensures
        is_stop(word) == seq![
            "a"@,
            "an"@,
            "the"@,
            "is"@,
            "are"@,
            "was"@,
            "were"@,
            "be"@,
            "been"@,
            "being"@,
            "to"@,
            "for"@,
            "and"@,
            "or"@,
            "of"@,
            "in"@,
            "on"@,
            "with"@,
            "at"@,
            "by"@,
            "from"@,
            "as"@,
            "it"@,
            "its"@,
            "this"@,
            "that"@,
            "do"@,
            "does"@,
            "did"@,
            "has"@,
            "have"@,
            "had"@,
            "will"@,
            "would"@,
            "could"@,
            "should"@,
            "can"@,
            "may"@,
            "might"@,
            "shall"@,
            "not"@,
            "no"@,
            "but"@,
            "if"@,
            "then"@,
            "so"@,
            "than"@,
            "too"@,
            "very"@,
            "just"@,
            "about"@,
            "into"@,
            "over"@,
            "after"@,
            "before"@,
            "between"@,
            "through"@,
            "during"@,
            "each"@,
            "every"@,
            "all"@,
            "both"@,
            "some"@,
            "any"@,
            "most"@,
            "other"@,
            "new"@,
            "old"@,
        ].contains(word),
{
    let list = seq![
        "a"@,
        "an"@,
        "the"@,
        "is"@,
        "are"@,
        "was"@,
        "were"@,
        "be"@,
        "been"@,
        "being"@,
        "to"@,
        "for"@,
        "and"@,
        "or"@,
        "of"@,
        "in"@,
        "on"@,
        "with"@,
        "at"@,
        "by"@,
        "from"@,
        "as"@,
        "it"@,
        "its"@,
        "this"@,
        "that"@,
        "do"@,
        "does"@,
        "did"@,
        "has"@,
        "have"@,
        "had"@,
        "will"@,
        "would"@,
        "could"@,
        "should"@,
        "can"@,
        "may"@,
        "might"@,
        "shall"@,
        "not"@,
        "no"@,
        "but"@,
        "if"@,
        "then"@,
        "so"@,
        "than"@,
        "too"@,
        "very"@,
        "just"@,
        "about"@,
        "into"@,
        "over"@,
        "after"@,
        "before"@,
        "between"@,
        "through"@,
        "during"@,
        "each"@,
        "every"@,
        "all"@,
        "both"@,
        "some"@,
        "any"@,
        "most"@,
        "other"@,
        "new"@,
        "old"@,
    ];
    assert(STOP_WORDS@.len() == list.len());
    assert forall|i: int| 0 <= i < list.len() implies (#[trigger] STOP_WORDS@[i])@ == list[i] by {
    }
    if is_stop(word) {
        let i = choose|i: int| 0 <= i < STOP_WORDS@.len() && (#[trigger] STOP_WORDS@[i])@ == word;
        assert(list[i] == word);
    }
    if list.contains(word) {
        let i = choose|i: int| 0 <= i < list.len() && list[i] == word;
        assert(STOP_WORDS@[i]@ == word);
    }
}

/// The keyword of a query of one word is that of the word, unless it is empty or says nothing.
pub proof fn law_one_word(word: Seq<char>)
    requires
        forall|i: int| 0 <= i < word.len() ==> !text::is_space(#[trigger] word[i]),
        word.len() > 0,
    ensures
        query_keywords(word) == (if keyword(word).len() == 0 || is_stop(keyword(word)) {
            Seq::empty()
        } else {
            seq![keyword(word)]
        }),
{
    text::lemma_one_piece(word, CharClass::Space);
    reveal_with_fuel(keywords_of, 2);
    let words = seq![word];
    assert(words.drop_last() =~= Seq::<Seq<char>>::empty());
    assert(query_keywords(word) =~= (if keyword(word).len() == 0 || is_stop(keyword(word)) {
        Seq::empty()
    } else {
        seq![keyword(word)]
    }));
}

/// Weighing keeps each match at its place, with its path, its rank and its reasons; its score is
/// what its points and its rank give, and what it gives its neighbours is what that score gives.
pub proof fn law_weighted<F: Fn(u128, u64) -> u64, G: Fn(u64) -> u64>(
    direct: Seq<DirectView>,
    weighted: Seq<WeightedView>,
    weigh: F,
    damp: G,
    i: int,
)
    requires
        weighted_by(direct, weighted, weigh, damp),
        0 <= i < direct.len(),
    ensures
        weighted.len() == direct.len(),
        weighted[i].scored.path == direct[i].path,
        weighted[i].scored.rank == direct[i].rank,
        weighted[i].scored.reasons == direct[i].reasons,
        call_ensures(
            weigh,
            (direct[i].points as u128, direct[i].rank),
            weighted[i].scored.score,
        ),
        call_ensures(damp, (weighted[i].scored.score,), weighted[i].neighbor_score),
{
    assert(weighted[i].scored.path == direct[i].path);
}

/// The reasons of a match name the keywords of its path first, in their order, and behind them
/// those of its exports alone, in their order.
pub proof fn law_reasons_in_order(keywords: Seq<Seq<char>>, file: ListedFile)
    requires
        keywords.no_duplicates(),
    ensures
        ({
            let parts = text::pieces(text::lowercase(file.path), CharClass::SlashOrDot);
            let names = file.exports.map_values(|e: Seq<char>| text::lowercase(e));
            match_of(keywords, file).reasons == keywords.filter(
                |k: Seq<char>| any_contains(parts, k),
            ) + keywords.filter(
                |k: Seq<char>| any_contains(names, k) && !any_contains(parts, k),
            )
        }),
{
    let parts = path_parts(file.path);
    let names = lowercased(file.exports);
    let none = Seq::<Seq<char>>::empty();
    let first = with_reasons(none, keywords, parts);
    lemma_reasons_added(none, keywords, parts);
    let a = |k: Seq<char>| any_contains(parts, k) && !none.contains(k);
    let b = |k: Seq<char>| any_contains(parts, k);
    assert forall|k: Seq<char>| #[trigger] a(k) == b(k) by {
        assert(!none.contains(k));
    }
    lists::lemma_same_choice(keywords, a, b);
    assert(first =~= keywords.filter(b));
    lemma_reasons_added(first, keywords, names);
    lemma_chosen_reasons(keywords, first, parts, names);
}

/// Two choices that agree on what a list holds keep the same of it.
proof fn lemma_chosen_reasons(
    keywords: Seq<Seq<char>>,
    first: Seq<Seq<char>>,
    parts: Seq<Seq<char>>,
    names: Seq<Seq<char>>,
)
    requires
        first == keywords.filter(|k: Seq<char>| any_contains(parts, k)),
    ensures
        keywords.filter(|k: Seq<char>| any_contains(names, k) && !first.contains(k))
            == keywords.filter(|k: Seq<char>| any_contains(names, k) && !any_contains(parts, k)),
{
    let b = |k: Seq<char>| any_contains(parts, k);
    assert forall|i: int| 0 <= i < keywords.len() implies first.contains(#[trigger] keywords[i])
        == any_contains(parts, keywords[i]) by {
        lists::lemma_kept_items(keywords, b, keywords[i]);
        assert(keywords.contains(keywords[i]));
    }
    lemma_same_there(
        keywords,
        |k: Seq<char>| any_contains(names, k) && !first.contains(k),
        |k: Seq<char>| any_contains(names, k) && !any_contains(parts, k),
    );
}

/// Two choices that agree on the items of a list keep the same of it.
proof fn lemma_same_there(
    items: Seq<Seq<char>>,
    a: spec_fn(Seq<char>) -> bool,
    b: spec_fn(Seq<char>) -> bool,
)
    requires
        forall|i: int| 0 <= i < items.len() ==> a(#[trigger] items[i]) == b(items[i]),
    ensures
        items.filter(a) == items.filter(b),
    decreases items.len(),
{
    reveal(Seq::filter);
    if items.len() > 0 {
        let rest = items.drop_last();
        assert forall|i: int| 0 <= i < rest.len() implies a(#[trigger] rest[i]) == b(rest[i]) by {
            assert(rest[i] == items[i]);
        }
        lemma_same_there(rest, a, b);
        assert(a(items[items.len() - 1]) == b(items[items.len() - 1]));
    }
}

/// The reasons that are added are the keywords that fit and are not there yet, in their order.
proof fn lemma_reasons_added(
    reasons: Seq<Seq<char>>,
    keywords: Seq<Seq<char>>,
    texts: Seq<Seq<char>>,
)
    requires
        keywords.no_duplicates(),
    ensures
        with_reasons(reasons, keywords, texts) == reasons + keywords.filter(
            |k: Seq<char>| any_contains(texts, k) && !reasons.contains(k),
        ),
    decreases keywords.len(),
{
    let keep = |k: Seq<char>| any_contains(texts, k) && !reasons.contains(k);
    if keywords.len() > 0 {
        let rest = keywords.drop_last();
        let last = keywords.last();
        lemma_reasons_added(reasons, rest, texts);
        let before = with_reasons(reasons, rest, texts);
        lists::lemma_kept_items(rest, keep, last);
        assert(!rest.contains(last)) by {
            if rest.contains(last) {
                let i = choose|i: int| 0 <= i < rest.len() && rest[i] == last;
                assert(keywords[i] == keywords[keywords.len() - 1]);
            }
        }
        assert(before.contains(last) == reasons.contains(last)) by {
            if reasons.contains(last) {
                let i = choose|i: int| 0 <= i < reasons.len() && reasons[i] == last;
                assert(before[i] == last);
            }
            if before.contains(last) && !reasons.contains(last) {
                let i = choose|i: int| 0 <= i < before.len() && before[i] == last;
                if i < reasons.len() {
                    assert(reasons[i] == last);
                } else {
                    assert(rest.filter(keep)[i - reasons.len()] == last);
                    assert(rest.filter(keep).contains(last));
                }
            }
        }
        reveal(Seq::filter);
        assert(with_reasons(reasons, keywords, texts) =~= reasons + keywords.filter(keep));
    } else {
        reveal(Seq::filter);
        assert(with_reasons(reasons, keywords, texts) =~= reasons + keywords.filter(keep));
    }
}

}
