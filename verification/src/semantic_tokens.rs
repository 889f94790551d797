//! Semantic token helpers: relative encoding of tokens and the diff between
//! two encoded token lists.

use vstd::prelude::*;

verus! {

/// Token kinds the server reports, in the order of the legend sent to the client.
#[derive(Clone, Copy, Debug, PartialEq, Eq, Structural)]
pub enum TokenType {
    Function,
    Macro,
    Namespace,
    String,
    Struct,
    TypeParameter,
    Variable,
    Generic,
}

/// Token modifiers the server reports, in the order of the legend.
#[derive(Clone, Copy, Debug, PartialEq, Eq, Structural)]
pub enum TokenModifier {
    Bound,
    ExportedFunction,
    ExportedType,
    DeprecatedFunction,
    TypeDynamic,
}

/// Position of a kind in the legend.
pub open spec fn spec_type_index(ty: TokenType) -> u32 {
    match ty {
        TokenType::Function => 0,
        TokenType::Macro => 1,
        TokenType::Namespace => 2,
        TokenType::String => 3,
        TokenType::Struct => 4,
        TokenType::TypeParameter => 5,
        TokenType::Variable => 6,
        TokenType::Generic => 7,
    }
}

/// Position of a modifier in the legend.
pub open spec fn spec_modifier_index(m: TokenModifier) -> u32 {
    match m {
        TokenModifier::Bound => 0,
        TokenModifier::ExportedFunction => 1,
        TokenModifier::ExportedType => 2,
        TokenModifier::DeprecatedFunction => 3,
        TokenModifier::TypeDynamic => 4,
    }
}

pub fn type_index(ty: TokenType) -> (idx: u32)
    ensures
        idx == spec_type_index(ty),
{
    match ty {
        TokenType::Function => 0,
        TokenType::Macro => 1,
        TokenType::Namespace => 2,
        TokenType::String => 3,
        TokenType::Struct => 4,
        TokenType::TypeParameter => 5,
        TokenType::Variable => 6,
        TokenType::Generic => 7,
    }
}

pub fn modifier_index(m: TokenModifier) -> (idx: u32)
    ensures
        idx == spec_modifier_index(m),
{
    match m {
        TokenModifier::Bound => 0,
        TokenModifier::ExportedFunction => 1,
        TokenModifier::ExportedType => 2,
        TokenModifier::DeprecatedFunction => 3,
        TokenModifier::TypeDynamic => 4,
    }
}

/// A set of modifiers as a bit set: bit `i` stands for the modifier at
/// position `i` of the legend.
#[derive(Clone, Copy, Debug, PartialEq, Eq, Structural)]
pub struct ModifierSet(pub u32);

impl ModifierSet {
    pub fn new() -> (s: ModifierSet)
        ensures
            s.0 == 0,
    {
        ModifierSet(0)
    }

    /// Adds a modifier to the set.
    pub fn bitor_assign(&mut self, rhs: TokenModifier)
        ensures
            final(self).0 == old(self).0 | (1u32 << spec_modifier_index(rhs)),
    {
        let idx: u32 = modifier_index(rhs);
        self.0 = self.0 | (1u32 << idx);
    }
}

#[derive(Clone, Copy, Debug, PartialEq, Eq, Structural)]
pub struct Position {
    pub line: u32,
    pub character: u32,
}

#[derive(Clone, Copy, Debug, PartialEq, Eq, Structural)]
pub struct Range {
    pub start: Position,
    pub end: Position,
}

/// One token, relative to the token before it.
#[derive(Clone, Copy, Debug, PartialEq, Eq, Structural)]
pub struct SemanticToken {
    pub delta_line: u32,
    pub delta_start: u32,
    pub length: u32,
    pub token_type: u32,
    pub token_modifiers_bitset: u32,
}

#[derive(Debug, PartialEq, Eq)]
pub struct SemanticTokens {
    pub result_id: Option<String>,
    pub data: Vec<SemanticToken>,
}

/// Replace `delete_count` numbers from `start` on by the numbers of `data`.
/// Both counts are in numbers, five to a token.
#[derive(Debug, PartialEq, Eq)]
pub struct SemanticTokensEdit {
    pub start: u32,
    pub delete_count: u32,
    pub data: Option<Vec<SemanticToken>>,
}

/// The relative encoding of a token at `range`, after a token that started at
/// (`prev_line`, `prev_char`); `first` says that no token came before.
pub open spec fn encode_token(
    first: bool,
    prev_line: u32,
    prev_char: u32,
    range: Range,
    token_index: u32,
    modifier_bitset: u32,
) -> SemanticToken {
    let delta_line = if first {
        range.start.line as int
    } else {
        range.start.line - prev_line
    };
    let delta_start = if !first && delta_line == 0 {
        range.start.character - prev_char
    } else {
        range.start.character as int
    };
    SemanticToken {
        delta_line: delta_line as u32,
        delta_start: delta_start as u32,
        length: (range.end.character - range.start.character) as u32,
        token_type: token_index,
        token_modifiers_bitset: modifier_bitset,
    }
}

/// Tokens are encoded relative to each other.
pub struct SemanticTokensBuilder {
    id: String,
    prev_line: u32,
    prev_char: u32,
    data: Vec<SemanticToken>,
}

impl SemanticTokensBuilder {
    pub closed spec fn id(&self) -> Seq<char> {
        self.id@
    }

    pub closed spec fn prev_line(&self) -> u32 {
        self.prev_line
    }

    pub closed spec fn prev_char(&self) -> u32 {
        self.prev_char
    }

    pub closed spec fn tokens(&self) -> Seq<SemanticToken> {
        self.data@
    }

    /// A token can be pushed when it does not start before the last one and
    /// does not end before it starts.
    pub open spec fn accepts(&self, range: Range) -> bool {
        &&& range.start.character <= range.end.character
        &&& self.tokens().len() > 0 ==> {
            &&& self.prev_line() <= range.start.line
            &&& self.prev_line() == range.start.line ==> self.prev_char()
                <= range.start.character
        }
    }

    pub fn new(id: String) -> (b: Self)
        ensures
            b.id() == id@,
            b.prev_line() == 0,
            b.prev_char() == 0,
            b.tokens() == Seq::<SemanticToken>::empty(),
    {
        SemanticTokensBuilder { id, prev_line: 0, prev_char: 0, data: Vec::new() }
    }

    /// Says whether `push` may be called with `range`.
    pub fn can_push(&self, range: Range) -> (ok: bool)
        ensures
            ok == self.accepts(range),
    {
        range.start.character <= range.end.character && (self.data.len() == 0 || (self.prev_line
            < range.start.line || (self.prev_line == range.start.line && self.prev_char
            <= range.start.character)))
    }

    /// Push a new token onto the builder
    pub fn push(&mut self, range: Range, token_index: u32, modifier_bitset: u32)
        requires
            old(self).accepts(range),
        ensures
            final(self).id() == old(self).id(),
            final(self).tokens() == old(self).tokens().push(
                encode_token(
                    old(self).tokens().len() == 0,
                    old(self).prev_line(),
                    old(self).prev_char(),
                    range,
                    token_index,
                    modifier_bitset,
                ),
            ),
            final(self).prev_line() == range.start.line,
            final(self).prev_char() == range.start.character,
    {
        let mut push_line: u32 = range.start.line;
        let mut push_char: u32 = range.start.character;

        if self.data.len() != 0 {
            push_line = push_line - self.prev_line;
            if push_line == 0 {
                push_char = push_char - self.prev_char;
            }
        }
        // A token cannot be multiline

        let token_len: u32 = range.end.character - range.start.character;

        let token = SemanticToken {
            delta_line: push_line,
            delta_start: push_char,
            length: token_len,
            token_type: token_index,
            token_modifiers_bitset: modifier_bitset,
        };

        self.data.push(token);

        self.prev_line = range.start.line;
        self.prev_char = range.start.character;
    }

    pub fn build(self) -> (t: SemanticTokens)
        ensures
            t.result_id.is_some(),
            t.result_id.unwrap()@ == self.id(),
            t.data@ == self.tokens(),
    {
        SemanticTokens { result_id: Some(self.id), data: self.data }
    }
}

/// Length of the longest common prefix of two sequences.
pub open spec fn common_prefix_len(a: Seq<SemanticToken>, b: Seq<SemanticToken>) -> nat
    decreases a.len(),
{
    if a.len() > 0 && b.len() > 0 && a[0] == b[0] {
        1 + common_prefix_len(a.skip(1), b.skip(1))
    } else {
        0
    }
}

/// Length of the longest common suffix of two sequences.
pub open spec fn common_suffix_len(a: Seq<SemanticToken>, b: Seq<SemanticToken>) -> nat
    decreases a.len(),
{
    if a.len() > 0 && b.len() > 0 && a.last() == b.last() {
        1 + common_suffix_len(a.drop_last(), b.drop_last())
    } else {
        0
    }
}

/// What is left of `old` and of `new` between their common prefix and the
/// common suffix of the remainders: the start in tokens, the tokens of `old`
/// to take out, and the tokens of `new` to put in.
pub open spec fn changed_span(old: Seq<SemanticToken>, new: Seq<SemanticToken>) -> (
    nat,
    Seq<SemanticToken>,
    Seq<SemanticToken>,
) {
    let offset = common_prefix_len(new, old);
    let old_rest = old.skip(offset as int);
    let new_rest = new.skip(offset as int);
    let from_end = common_suffix_len(new_rest, old_rest);
    (
        offset,
        old_rest.take(old_rest.len() - from_end),
        new_rest.take(new_rest.len() - from_end),
    )
}

/// The token list that an edit makes of `old`.
pub open spec fn apply_edit(
    old: Seq<SemanticToken>,
    start: int,
    delete_count: int,
    data: Seq<SemanticToken>,
) -> Seq<SemanticToken> {
    old.take(start) + data + old.skip(start + delete_count)
}

pub proof fn lemma_common_prefix(a: Seq<SemanticToken>, b: Seq<SemanticToken>)
    ensures
        common_prefix_len(a, b) <= a.len(),
        common_prefix_len(a, b) <= b.len(),
        forall|i: int| 0 <= i < common_prefix_len(a, b) ==> a[i] == b[i],
        common_prefix_len(a, b) < a.len() && common_prefix_len(a, b) < b.len() ==> a[common_prefix_len(
            a,
            b,
        ) as int] != b[common_prefix_len(a, b) as int],
    decreases a.len(),
{
    if a.len() > 0 && b.len() > 0 && a[0] == b[0] {
        lemma_common_prefix(a.skip(1), b.skip(1));
        let n = common_prefix_len(a.skip(1), b.skip(1)) as int;
        assert forall|i: int| 0 <= i < common_prefix_len(a, b) implies a[i] == b[i] by {
            if i > 0 {
                assert(a.skip(1)[i - 1] == a[i]);
                assert(b.skip(1)[i - 1] == b[i]);
            }
        }
        if n + 1 < a.len() && n + 1 < b.len() {
            assert(a.skip(1)[n] == a[n + 1]);
            assert(b.skip(1)[n] == b[n + 1]);
        }
    }
}

pub proof fn lemma_common_suffix(a: Seq<SemanticToken>, b: Seq<SemanticToken>)
    ensures
        common_suffix_len(a, b) <= a.len(),
        common_suffix_len(a, b) <= b.len(),
        forall|i: int|
            a.len() - common_suffix_len(a, b) <= i < a.len() ==> #[trigger] a[i] == b[i - a.len()
                + b.len()],
        common_suffix_len(a, b) < a.len() && common_suffix_len(a, b) < b.len() ==> a[a.len() - 1
            - common_suffix_len(a, b)] != b[b.len() - 1 - common_suffix_len(a, b)],
    decreases a.len(),
{
    if a.len() > 0 && b.len() > 0 && a.last() == b.last() {
        let a1 = a.drop_last();
        let b1 = b.drop_last();
        lemma_common_suffix(a1, b1);
        let n = common_suffix_len(a1, b1) as int;
        assert forall|i: int| a.len() - common_suffix_len(a, b) <= i < a.len() implies #[trigger] a[i]
            == b[i - a.len() + b.len()] by {
            if i < a.len() - 1 {
                assert(a1[i] == a[i]);
                assert(b1[i - a1.len() + b1.len()] == b[i - a.len() + b.len()]);
            }
        }
        if n + 1 < a.len() && n + 1 < b.len() {
            assert(a1[a1.len() - 1 - n] == a[a.len() - 2 - n]);
            assert(b1[b1.len() - 1 - n] == b[b.len() - 2 - n]);
        }
    }
}

/// The prefix length is the only number that the common prefix's three
/// properties fit.
pub proof fn lemma_common_prefix_unique(a: Seq<SemanticToken>, b: Seq<SemanticToken>, n: int)
    requires
        0 <= n <= a.len(),
        n <= b.len(),
        forall|i: int| 0 <= i < n ==> a[i] == b[i],
        n < a.len() && n < b.len() ==> a[n] != b[n],
    ensures
        common_prefix_len(a, b) == n,
{
    lemma_common_prefix(a, b);
}

/// The suffix length is the only number that the common suffix's three
/// properties fit.
pub proof fn lemma_common_suffix_unique(a: Seq<SemanticToken>, b: Seq<SemanticToken>, n: int)
    requires
        0 <= n <= a.len(),
        n <= b.len(),
        forall|i: int| a.len() - n <= i < a.len() ==> #[trigger] a[i] == b[i - a.len() + b.len()],
        n < a.len() && n < b.len() ==> a[a.len() - 1 - n] != b[b.len() - 1 - n],
    ensures
        common_suffix_len(a, b) == n,
{
    lemma_common_suffix(a, b);
    let m = common_suffix_len(a, b) as int;
    if m < n {
        assert(a[a.len() - 1 - m] == b[a.len() - 1 - m - a.len() + b.len()]);
    } else if n < m {
        assert(a[a.len() - 1 - n] == b[a.len() - 1 - n - a.len() + b.len()]);
    }
}

/// Patching `old` with the changed span gives `new`: what `diff_tokens`
/// reports is enough to rebuild the new token list from the old one.
pub proof fn lemma_diff_restores(old: Seq<SemanticToken>, new: Seq<SemanticToken>)
    ensures
        ({
            let (offset, removed, inserted) = changed_span(old, new);
            &&& offset + removed.len() <= old.len()
            &&& apply_edit(old, offset as int, removed.len() as int, inserted) == new
        }),
{
    let offset = common_prefix_len(new, old) as int;
    lemma_common_prefix(new, old);
    let old_rest = old.skip(offset);
    let new_rest = new.skip(offset);
    let from_end = common_suffix_len(new_rest, old_rest) as int;
    lemma_common_suffix(new_rest, old_rest);
    let removed = old_rest.take(old_rest.len() - from_end);
    let inserted = new_rest.take(new_rest.len() - from_end);
    let patched = apply_edit(old, offset, removed.len() as int, inserted);
    assert(patched.len() == new.len());
    assert forall|i: int| 0 <= i < new.len() implies patched[i] == new[i] by {
        if i < offset {
        } else if i < offset + inserted.len() {
            assert(inserted[i - offset] == new_rest[i - offset]);
        } else {
            let k = i - offset;
            assert(new_rest.len() - from_end <= k < new_rest.len());
            assert(new_rest[k] == old_rest[k - new_rest.len() + old_rest.len()]);
        }
    }
    assert(patched =~= new);
}

/// What `diff_tokens` returns: no edit where the lists are equal, else the
/// one edit that replaces the changed span, counted in numbers.
pub open spec fn spec_diff_tokens(old: Seq<SemanticToken>, new: Seq<SemanticToken>) -> Seq<
    (int, int, Seq<SemanticToken>),
> {
    let (offset, removed, inserted) = changed_span(old, new);
    if removed.len() == 0 && inserted.len() == 0 {
        seq![]
    } else {
        seq![((5 * offset) as int, (5 * removed.len()) as int, inserted)]
    }
}

/// An edit as plain numbers and a sequence; an edit without data has none.
pub open spec fn edit_view(e: SemanticTokensEdit) -> (int, int, Seq<SemanticToken>) {
    (
        e.start as int,
        e.delete_count as int,
        match e.data {
            Some(d) => d@,
            None => Seq::empty(),
        },
    )
}

pub fn diff_tokens(old: &[SemanticToken], new: &[SemanticToken]) -> (edits: Vec<SemanticTokensEdit>)
    requires
        5 * old@.len() <= u32::MAX,
    ensures
        edits@.len() == spec_diff_tokens(old@, new@).len(),
        forall|i: int|
            0 <= i < edits@.len() ==> edits@[i].data.is_some() && edit_view(#[trigger] edits@[i])
                == spec_diff_tokens(old@, new@)[i],
{
    let mut offset: usize = 0;
    while offset < old.len() && offset < new.len() && new[offset] == old[offset]
        invariant
            offset <= old@.len(),
            offset <= new@.len(),
            forall|i: int| 0 <= i < offset ==> new@[i] == old@[i],
        decreases old@.len() - offset,
    {
        offset = offset + 1;
    }
    proof {
        lemma_common_prefix_unique(new@, old@, offset as int);
    }
    let old_len: usize = old.len() - offset;
    let new_len: usize = new.len() - offset;
    let ghost old_rest = old@.skip(offset as int);
    let ghost new_rest = new@.skip(offset as int);

    let mut from_end: usize = 0;
    while from_end < old_len && from_end < new_len && new[new.len() - 1 - from_end] == old[old.len()
        - 1 - from_end]
        invariant
            old_len == old@.len() - offset,
            new_len == new@.len() - offset,
            old_rest == old@.skip(offset as int),
            new_rest == new@.skip(offset as int),
            from_end <= old_len,
            from_end <= new_len,
            forall|i: int|
                new_rest.len() - from_end <= i < new_rest.len() ==> #[trigger] new_rest[i]
                    == old_rest[i - new_rest.len() + old_rest.len()],
        decreases old_len - from_end,
    {
        proof {
            let k = new_rest.len() - 1 - from_end;
            assert(new_rest[k] == new@[new@.len() - 1 - from_end]);
            assert(old_rest[k - new_rest.len() + old_rest.len()] == old@[old@.len() - 1
                - from_end]);
        }
        from_end = from_end + 1;
    }
    proof {
        if from_end < old_len && from_end < new_len {
            assert(new_rest[new_rest.len() - 1 - from_end] == new@[new@.len() - 1 - from_end]);
            assert(old_rest[old_rest.len() - 1 - from_end] == old@[old@.len() - 1 - from_end]);
        }
        lemma_common_suffix_unique(new_rest, old_rest, from_end as int);
    }
    let removed: usize = old_len - from_end;
    let inserted: usize = new_len - from_end;

    if removed == 0 && inserted == 0 {
        Vec::new()
    } else {
        // The data field counts numbers, not tokens: `start` and
        // `delete_count` are in multiples of the five numbers of a token.
        let mut data: Vec<SemanticToken> = Vec::new();
        let mut i: usize = 0;
        while i < inserted
            invariant
                i <= inserted,
                inserted == new_rest.len() - from_end,
                new_rest == new@.skip(offset as int),
                offset + inserted <= new@.len() <= usize::MAX,
                data@ == new_rest.take(i as int),
            decreases inserted - i,
        {
            data.push(new[offset + i]);
            proof {
                assert(new_rest[i as int] == new@[offset + i]);
                assert(data@ =~= new_rest.take(i + 1));
            }
            i = i + 1;
        }
        let edit = SemanticTokensEdit {
            start: 5 * (offset as u32),
            delete_count: 5 * (removed as u32),
            data: Some(data),
        };
        let mut edits: Vec<SemanticTokensEdit> = Vec::new();
        edits.push(edit);
        proof {
            assert(old_rest.take(old_rest.len() - from_end).len() == removed);
        }
        edits
    }
}

} // verus!
