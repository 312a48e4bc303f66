//! The token whitelist.

use vstd::prelude::*;

use crate::text;
use crate::text::{chars_of, string_of, trim_range};

verus! {

/// A set of tokens. No token is stored twice; what came first stays first.
#[derive(Debug)]
pub struct TokenSet {
    tokens: Vec<String>,
}

/// Whether a trimmed line of a token file names a token: it is neither empty nor a comment.
pub open spec fn names_token(t: Seq<char>) -> bool {
    t.len() > 0 && t[0] != '#'
}

/// The tokens named by the given lines.
pub open spec fn tokens_in_lines(lines: Seq<Seq<char>>) -> Set<Seq<char>> {
    Set::new(
        |t: Seq<char>|
            names_token(t) && exists|i: int|
                0 <= i < lines.len() && t == #[trigger] text::trim(lines[i]),
    )
}

/// The tokens named by the text of a token file, one on each line.
pub open spec fn tokens_in_file(content: Seq<char>) -> Set<Seq<char>> {
    tokens_in_lines(text::split_lines(content))
}

/// The tokens of an optional list.
pub open spec fn tokens_in_list(list: Option<Seq<Seq<char>>>) -> Set<Seq<char>> {
    match list {
        Some(tokens) => tokens.to_set(),
        None => Set::empty(),
    }
}

/// The tokens named by the given lines, in their order.
pub open spec fn listed_in_lines(lines: Seq<Seq<char>>) -> Seq<Seq<char>>
    decreases lines.len(),
{
    if lines.len() == 0 {
        Seq::empty()
    } else {
        let before = listed_in_lines(lines.drop_last());
        let t = text::trim(lines.last());
        if names_token(t) {
            before.push(t)
        } else {
            before
        }
    }
}

/// A list with a token added at its end, unless it is there already.
pub open spec fn with_token(list: Seq<Seq<char>>, token: Seq<char>) -> Seq<Seq<char>> {
    if list.contains(token) {
        list
    } else {
        list.push(token)
    }
}

/// A list with tokens added one after the other.
pub open spec fn with_tokens(list: Seq<Seq<char>>, tokens: Seq<Seq<char>>) -> Seq<Seq<char>>
    decreases tokens.len(),
{
    if tokens.len() == 0 {
        list
    } else {
        with_token(with_tokens(list, tokens.drop_last()), tokens.last())
    }
}

/// One more line adds the token that it names, if it names one.
proof fn lemma_tokens_in_pushed_line(lines: Seq<Seq<char>>, line: Seq<char>)
    ensures
        tokens_in_lines(lines.push(line)) == if names_token(text::trim(line)) {
            tokens_in_lines(lines).insert(text::trim(line))
        } else {
            tokens_in_lines(lines)
        },
{
    let more = lines.push(line);
    assert forall|t: Seq<char>| #[trigger]
        tokens_in_lines(more).contains(t) == (tokens_in_lines(lines).contains(t) || (names_token(t)
            && t == text::trim(line))) by {
        assert(more[lines.len() as int] == line);
        if tokens_in_lines(lines).contains(t) {
            let i = choose|i: int| 0 <= i < lines.len() && t == #[trigger] text::trim(lines[i]);
            assert(more[i] == lines[i]);
        }
        if tokens_in_lines(more).contains(t) {
            let i = choose|i: int| 0 <= i < more.len() && t == #[trigger] text::trim(more[i]);
            if i < lines.len() {
                assert(more[i] == lines[i]);
            }
        }
    }
    if names_token(text::trim(line)) {
        assert(tokens_in_lines(more) =~= tokens_in_lines(lines).insert(text::trim(line)));
    } else {
        assert(tokens_in_lines(more) =~= tokens_in_lines(lines));
    }
}

/// One more line lists the token that it names, if it names one.
proof fn lemma_listed_in_pushed_line(list: Seq<Seq<char>>, lines: Seq<Seq<char>>, line: Seq<char>)
    ensures
        with_tokens(list, listed_in_lines(lines.push(line))) == if names_token(text::trim(line)) {
            with_token(with_tokens(list, listed_in_lines(lines)), text::trim(line))
        } else {
            with_tokens(list, listed_in_lines(lines))
        },
{
    let more = lines.push(line);
    let before = listed_in_lines(lines);
    assert(more.drop_last() =~= lines);
    if names_token(text::trim(line)) {
        assert(listed_in_lines(more) == before.push(text::trim(line)));
        assert(before.push(text::trim(line)).drop_last() =~= before);
    }
}

impl View for TokenSet {
    type V = Set<Seq<char>>;

    closed spec fn view(&self) -> Set<Seq<char>> {
        self.tokens.deep_view().to_set()
    }
}

impl Clone for TokenSet {
    fn clone(&self) -> (r: Self)
        ensures
            r@ == self@,
            r.listed() == self.listed(),
    {
        proof {
            use_type_invariant(self);
        }
        let tokens = self.tokens.clone();
        assert(tokens.deep_view() =~= self.tokens.deep_view());
        TokenSet { tokens }
    }
}

impl TokenSet {
    /// No token is stored twice.
    #[verifier::type_invariant]
    spec fn distinct(&self) -> bool {
        self.tokens.deep_view().no_duplicates()
    }

    /// The tokens in the order in which they were first added.
    pub closed spec fn listed(&self) -> Seq<Seq<char>> {
        self.tokens.deep_view()
    }

    /// An empty set.
    pub fn new() -> (s: Self)
        ensures
            s@ == Set::<Seq<char>>::empty(),
            s.listed() == Seq::<Seq<char>>::empty(),
    {
        let s = TokenSet { tokens: Vec::new() };
        assert(s@ =~= Set::<Seq<char>>::empty());
        assert(s.listed() =~= Seq::<Seq<char>>::empty());
        s
    }

    /// The tokens, each once, in the order in which they were first added.
    pub fn as_vec(&self) -> (v: &Vec<String>)
        ensures
            v.deep_view() == self.listed(),
            self.listed().to_set() == self@,
            self.listed().no_duplicates(),
    {
        proof {
            use_type_invariant(self);
        }
        &self.tokens
    }

    /// The number of tokens.
    pub fn len(&self) -> (n: usize)
        ensures
            n == self@.len(),
            self@.finite(),
    {
        proof {
            use_type_invariant(self);
            self.tokens.deep_view().unique_seq_to_set();
        }
        self.tokens.len()
    }

    /// Whether there is no token.
    pub fn is_empty(&self) -> (r: bool)
        ensures
            r == (self@ == Set::<Seq<char>>::empty()),
    {
        proof {
            if self.tokens.len() > 0 {
                assert(self.tokens.deep_view().contains(self.tokens.deep_view()[0]));
                assert(self@.contains(self.tokens.deep_view()[0]));
            } else {
                assert(self@ =~= Set::<Seq<char>>::empty());
            }
        }
        self.tokens.len() == 0
    }

    /// Whether `token` is in the set.
    pub fn contains(&self, token: &String) -> (r: bool)
        ensures
            r == self@.contains(token@),
            r == self.listed().contains(token@),
    {
        let mut i: usize = 0;
        while i < self.tokens.len()
            invariant
                i <= self.tokens.len(),
                forall|j: int| 0 <= j < i ==> self.tokens.deep_view()[j] != token@,
            decreases self.tokens.len() - i,
        {
            if self.tokens[i] == *token {
                assert(self.tokens.deep_view()[i as int] == token@);
                return true;
            }
            i += 1;
        }
        false
    }

    /// Adds `token`, unless it is there already.
    pub fn insert(&mut self, token: String)
        ensures
            final(self)@ == old(self)@.insert(token@),
            final(self).listed() == with_token(old(self).listed(), token@),
    {
        if !self.contains(&token) {
            let ghost before = self.tokens.deep_view();
            proof {
                use_type_invariant(&*self);
            }
            let mut tokens: Vec<String> = Vec::new();
            std::mem::swap(&mut tokens, &mut self.tokens);
            tokens.push(token);
            assert(tokens.deep_view() =~= before.push(token@));
            self.tokens = tokens;
            proof {
                let after = before.push(token@);
                assert forall|t: Seq<char>| after.to_set().contains(t) == before.to_set().insert(
                    token@,
                ).contains(t) by {
                    if before.contains(t) {
                        let j = choose|j: int| 0 <= j < before.len() && before[j] == t;
                        assert(after[j] == t);
                    }
                    assert(after[before.len() as int] == token@);
                }
                assert(after.to_set() =~= before.to_set().insert(token@));
            }
        } else {
            assert(self@ =~= self@.insert(token@));
        }
    }

    /// Adds every token of `list`.
    pub fn extend(&mut self, list: &Vec<String>)
        ensures
            final(self)@ == old(self)@.union(list.deep_view().to_set()),
            final(self).listed() == with_tokens(old(self).listed(), list.deep_view()),
    {
        let ghost all = list.deep_view();
        let ghost start = self@;
        let ghost start_list = self.listed();
        let mut i: usize = 0;
        assert(self@ =~= start.union(all.take(0).to_set()));
        while i < list.len()
            invariant
                i <= list.len(),
                all == list.deep_view(),
                self@ == start.union(all.take(i as int).to_set()),
                self.listed() == with_tokens(start_list, all.take(i as int)),
            decreases list.len() - i,
        {
            self.insert(list[i].clone());
            proof {
                lemma_to_set_push(all.take(i as int), all[i as int]);
                assert(all.take(i + 1) =~= all.take(i as int).push(all[i as int]));
                assert(self@ =~= start.union(all.take(i + 1).to_set()));
                assert(all.take(i + 1).drop_last() =~= all.take(i as int));
            }
            i += 1;
        }
        assert(all.take(i as int) =~= all);
    }

    /// Adds the tokens that the text of a token file names, one on each line. White space around
    /// a token does not count; empty lines and lines that start with `#` name none.
    pub fn load(&mut self, content: &str)
        ensures
            final(self)@ == old(self)@.union(tokens_in_file(content@)),
            final(self).listed() == with_tokens(
                old(self).listed(),
                listed_in_lines(text::split_lines(content@)),
            ),
    {
        let cs = chars_of(content);
        let ghost start_set = self@;
        let ghost start_list = self.listed();
        let mut start: usize = 0;
        let mut i: usize = 0;
        proof {
            assert(cs@.take(0) =~= Seq::<char>::empty());
            assert(cs@.subrange(0, 0) =~= Seq::<char>::empty());
            assert(text::split_lines(cs@.take(0)).drop_last() =~= Seq::<Seq<char>>::empty());
            assert(tokens_in_lines(Seq::<Seq<char>>::empty()) =~= Set::<Seq<char>>::empty());
            assert(self@ =~= start_set.union(Set::<Seq<char>>::empty()));
        }
        while i < cs.len()
            invariant
                start <= i <= cs@.len(),
                text::split_lines(cs@.take(i as int)).len() > 0,
                text::split_lines(cs@.take(i as int)).last() == cs@.subrange(
                    start as int,
                    i as int,
                ),
                self@ == start_set.union(
                    tokens_in_lines(text::split_lines(cs@.take(i as int)).drop_last()),
                ),
                self.listed() == with_tokens(
                    start_list,
                    listed_in_lines(text::split_lines(cs@.take(i as int)).drop_last()),
                ),
            decreases cs@.len() - i,
        {
            let ghost before = text::split_lines(cs@.take(i as int));
            let ghost after = text::split_lines(cs@.take(i + 1));
            proof {
                assert(cs@.take(i + 1).drop_last() =~= cs@.take(i as int));
                assert(before =~= before.drop_last().push(before.last()));
            }
            if cs[i] == '\n' {
                self.add_line(&cs, start, i);
                start = i + 1;
                proof {
                    lemma_tokens_in_pushed_line(before.drop_last(), before.last());
                    lemma_listed_in_pushed_line(start_list, before.drop_last(), before.last());
                    assert(after.drop_last() =~= before);
                    assert(cs@.subrange(start as int, i + 1) =~= Seq::<char>::empty());
                    assert(self@ =~= start_set.union(tokens_in_lines(after.drop_last())));
                }
            } else {
                proof {
                    assert(after.drop_last() =~= before.drop_last());
                    assert(cs@.subrange(start as int, i + 1) =~= cs@.subrange(
                        start as int,
                        i as int,
                    ).push(cs@[i as int]));
                }
            }
            i += 1;
        }
        let ghost lines = text::split_lines(cs@.take(i as int));
        self.add_line(&cs, start, i);
        proof {
            assert(cs@.take(i as int) =~= content@);
            assert(lines =~= lines.drop_last().push(lines.last()));
            lemma_tokens_in_pushed_line(lines.drop_last(), lines.last());
            lemma_listed_in_pushed_line(start_list, lines.drop_last(), lines.last());
            assert(self@ =~= start_set.union(tokens_in_lines(lines)));
        }
    }

    /// Adds the token that the line `cs[from..to]` names, if it names one.
    fn add_line(&mut self, cs: &Vec<char>, from: usize, to: usize)
        requires
            from <= to <= cs@.len(),
        ensures
            final(self)@ == ({
                let t = text::trim(cs@.subrange(from as int, to as int));
                if names_token(t) {
                    old(self)@.insert(t)
                } else {
                    old(self)@
                }
            }),
            final(self).listed() == ({
                let t = text::trim(cs@.subrange(from as int, to as int));
                if names_token(t) {
                    with_token(old(self).listed(), t)
                } else {
                    old(self).listed()
                }
            }),
    {
        let (a, b) = trim_range(cs, from, to);
        if a < b && cs[a] != '#' {
            let token = string_of(cs, a, b);
            self.insert(token);
        }
    }
}

/// A token of a token file is not empty, is no comment, and has no white space at its ends.
pub proof fn law_file_tokens_are_clean(content: Seq<char>, token: Seq<char>)
    requires
        tokens_in_file(content).contains(token),
    ensures
        token.len() > 0,
        token[0] != '#',
        !text::is_white(token[0]),
        !text::is_white(token.last()),
{
    let lines = text::split_lines(content);
    let i = choose|i: int| 0 <= i < lines.len() && token == #[trigger] text::trim(lines[i]);
    text::law_trimmed_is_bare(lines[i]);
}

/// Pushing an element inserts it into the set of elements.
proof fn lemma_to_set_push<A>(s: Seq<A>, a: A)
    ensures
        s.push(a).to_set() == s.to_set().insert(a),
{
    assert forall|x: A| s.push(a).to_set().contains(x) == s.to_set().insert(a).contains(x) by {
        if s.contains(x) {
            let j = choose|j: int| 0 <= j < s.len() && s[j] == x;
            assert(s.push(a)[j] == x);
        }
        assert(s.push(a)[s.len() as int] == a);
    }
    assert(s.push(a).to_set() =~= s.to_set().insert(a));
}

/// Every token of a token file is in the whitelist: take any line, and in it the text between the
/// white space at its ends. If that is not empty and does not start with `#`, it is a token.
pub proof fn law_every_file_token_counts(content: Seq<char>, a: int, p: int, q: int, b: int)
    requires
        text::whole_line(content, a, b),
        a <= p < q <= b,
        forall|i: int| a <= i < p ==> text::is_white(#[trigger] content[i]),
        forall|i: int| q <= i < b ==> text::is_white(#[trigger] content[i]),
        !text::is_white(content[p]),
        !text::is_white(content[q - 1]),
        content[p] != '#',
    ensures
        tokens_in_file(content).contains(content.subrange(p, q)),
        listed_in_lines(text::split_lines(content)).contains(content.subrange(p, q)),
{
    let lines = text::split_lines(content);
    let line = content.subrange(a, b);
    let token = content.subrange(p, q);
    text::law_every_line_is_split_off(content, a, b);
    assert forall|i: int| 0 <= i < p - a implies text::is_white(#[trigger] line[i]) by {
        assert(line[i] == content[a + i]);
    }
    assert forall|i: int| q - a <= i < line.len() implies text::is_white(#[trigger] line[i]) by {
        assert(line[i] == content[a + i]);
    }
    text::law_trim_cuts_white_space(line, p - a, q - a);
    assert(line.subrange(p - a, q - a) =~= token);
    let i = choose|i: int| 0 <= i < lines.len() && lines[i] == line;
    assert(token == text::trim(lines[i]));
    assert(token[0] == content[p]);
    lemma_listed_contains(lines, i);
}

/// The token that a line names is listed.
proof fn lemma_listed_contains(lines: Seq<Seq<char>>, i: int)
    requires
        0 <= i < lines.len(),
        names_token(text::trim(lines[i])),
    ensures
        listed_in_lines(lines).contains(text::trim(lines[i])),
    decreases lines.len(),
{
    let listed = listed_in_lines(lines);
    let before = listed_in_lines(lines.drop_last());
    let t = text::trim(lines[i]);
    if i == lines.len() - 1 {
        assert(listed[listed.len() - 1] == t);
    } else {
        lemma_listed_contains(lines.drop_last(), i);
        let j = choose|j: int| 0 <= j < before.len() && before[j] == t;
        assert(listed[j] == t);
    }
}

/// Nothing else of a token file is a token: a token is what stands between the white space at the
/// ends of some line, it is not empty, and it does not start with `#`.
pub proof fn law_file_tokens_are_on_lines(content: Seq<char>, token: Seq<char>) -> (r: (
    int,
    int,
    int,
    int,
))
    requires
        tokens_in_file(content).contains(token),
    ensures
        text::whole_line(content, r.0, r.3),
        r.0 <= r.1 < r.2 <= r.3,
        token == content.subrange(r.1, r.2),
        forall|i: int| r.0 <= i < r.1 ==> text::is_white(#[trigger] content[i]),
        forall|i: int| r.2 <= i < r.3 ==> text::is_white(#[trigger] content[i]),
        token[0] != '#',
{
    let lines = text::split_lines(content);
    let k = choose|i: int| 0 <= i < lines.len() && token == #[trigger] text::trim(lines[i]);
    let (a, b) = text::law_split_lines_are_whole(content, k);
    let line = lines[k];
    let (p, q) = text::law_trimmed_is_a_piece(line);
    assert(line.subrange(p, q) =~= content.subrange(a + p, a + q));
    assert forall|i: int| a <= i < a + p implies text::is_white(#[trigger] content[i]) by {
        assert(line[i - a] == content[i]);
    }
    assert forall|i: int| a + q <= i < b implies text::is_white(#[trigger] content[i]) by {
        assert(line[i - a] == content[i]);
    }
    (a, a + p, a + q, b)
}

/// The tokens of a list are those that it holds, each and no other.
pub proof fn law_every_listed_token_counts(list: Option<Seq<Seq<char>>>, token: Seq<char>)
    ensures
        tokens_in_list(list).contains(token) <==> (list matches Some(tokens) && exists|i: int|
            0 <= i < tokens.len() && #[trigger] tokens[i] == token),
{
}

/// Adding tokens to a list keeps what it holds in place, adds every token, adds nothing else, and
/// adds none twice.
pub proof fn law_added_tokens_are_listed(list: Seq<Seq<char>>, tokens: Seq<Seq<char>>)
    ensures
        list.is_prefix_of(with_tokens(list, tokens)),
        forall|t: Seq<char>| #[trigger]
            with_tokens(list, tokens).contains(t) <==> list.contains(t) || tokens.contains(t),
        list.no_duplicates() ==> with_tokens(list, tokens).no_duplicates(),
    decreases tokens.len(),
{
    if tokens.len() > 0 {
        let before = with_tokens(list, tokens.drop_last());
        let after = with_tokens(list, tokens);
        let last = tokens.last();
        law_added_tokens_are_listed(list, tokens.drop_last());
        assert forall|t: Seq<char>| #[trigger] after.contains(t) <==> list.contains(t)
            || tokens.contains(t) by {
            assert(before.contains(t) <==> list.contains(t) || tokens.drop_last().contains(t));
            assert(tokens.contains(t) <==> tokens.drop_last().contains(t) || t == last) by {
                assert(tokens[tokens.len() - 1] == last);
                if tokens.drop_last().contains(t) {
                    let i = choose|i: int|
                        0 <= i < tokens.drop_last().len() && tokens.drop_last()[i] == t;
                    assert(tokens[i] == t);
                }
                if tokens.contains(t) && t != last {
                    let i = choose|i: int| 0 <= i < tokens.len() && tokens[i] == t;
                    assert(tokens.drop_last()[i] == t);
                }
            }
            if !before.contains(last) {
                assert(after[after.len() - 1] == last);
                if before.contains(t) {
                    let i = choose|i: int| 0 <= i < before.len() && before[i] == t;
                    assert(after[i] == t);
                }
            }
        }
        if list.no_duplicates() && !before.contains(last) {
            assert forall|i: int, j: int|
                0 <= i < after.len() && 0 <= j < after.len() && i != j implies after[i]
                != after[j] by {
                if i < before.len() {
                    assert(before.contains(before[i]));
                }
                if j < before.len() {
                    assert(before.contains(before[j]));
                }
            }
        }
        assert(list.is_prefix_of(after));
    }
}

} // verus!
