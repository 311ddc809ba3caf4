//! Random passwords that hold at least one character of every requested
//! category.

use crate::error::VaultError;
use crate::random::{random_index, shuffle};
use vstd::prelude::*;

verus! {

/// The least length of a generated password: one character for each of the
/// four categories.
pub const MIN_PASSWORD_LEN: usize = 4;

/// The lowercase letters.
pub open spec fn lowercase_chars() -> Seq<char> {
    "abcdefghijklmnopqrstuvwxyz"@
}

/// The uppercase letters.
pub open spec fn uppercase_chars() -> Seq<char> {
    "ABCDEFGHIJKLMNOPQRSTUVWXYZ"@
}

/// The decimal digits.
pub open spec fn digit_chars() -> Seq<char> {
    "0123456789"@
}

/// The symbols offered when symbols are requested.
pub open spec fn symbol_chars() -> Seq<char> {
    "!@#$%^&*()-_=+[]{};:,.<>/?~"@
}

/// The characters that are easily mistaken for one another, or that need
/// quoting in a shell.
pub open spec fn ambiguous_chars() -> Seq<char> {
    "O0o1lI|`'\"{}[]()/\\;:.,<>"@
}

/// Whether a character belongs to the ambiguous set.
pub open spec fn is_ambiguous(c: char) -> bool {
    ambiguous_chars().contains(c)
}

/// A pool without its ambiguous characters, the others in their order.
pub open spec fn strip_ambiguous_spec(pool: Seq<char>) -> Seq<char> {
    pool.filter(|c: char| !is_ambiguous(c))
}

/// The characters of a category that may be drawn.
pub open spec fn active_pool(pool: Seq<char>, allow_ambiguous: bool) -> Seq<char> {
    if allow_ambiguous {
        pool
    } else {
        strip_ambiguous_spec(pool)
    }
}

/// The pools that take part: lowercase, uppercase, digits, and the symbols if
/// they are requested, in this order.
pub open spec fn active_pools(symbols: Seq<char>, use_symbols: bool, allow_ambiguous: bool) -> Seq<
    Seq<char>,
> {
    let letters_and_digits = seq![
        active_pool(lowercase_chars(), allow_ambiguous),
        active_pool(uppercase_chars(), allow_ambiguous),
        active_pool(digit_chars(), allow_ambiguous),
    ];
    if use_symbols {
        letters_and_digits.push(active_pool(symbols, allow_ambiguous))
    } else {
        letters_and_digits
    }
}

/// The characters of a string slice, in order.
pub fn chars_of(s: &str) -> (v: Vec<char>)
    ensures
        v@ == s@,
{
    let n = s.unicode_len();
    let mut v: Vec<char> = Vec::new();
    let mut i: usize = 0;
    while i < n
        invariant
            i <= n,
            n == s@.len(),
            v@ == s@.subrange(0, i as int),
        decreases n - i,
    {
        v.push(s.get_char(i));
        i += 1;
    }
    v
}

/// Tests whether a character occurs in a slice.
pub fn contains_char(chars: &[char], c: char) -> (found: bool)
    ensures
        found == chars@.contains(c),
{
    let mut i: usize = 0;
    while i < chars.len()
        invariant
            i <= chars.len(),
            forall|j: int| 0 <= j < i ==> chars@[j] != c,
        decreases chars.len() - i,
    {
        if chars[i] == c {
            return true;
        }
        i += 1;
    }
    false
}

/// Removes the ambiguous characters from a pool and keeps the others in order.
pub fn strip_ambiguous(pool: &[char]) -> (stripped: Vec<char>)
    ensures
        stripped@ == strip_ambiguous_spec(pool@),
{
    let ambiguous = chars_of("O0o1lI|`'\"{}[]()/\\;:.,<>");
    let ghost keep = |c: char| !is_ambiguous(c);
    let mut stripped: Vec<char> = Vec::new();
    let mut i: usize = 0;
    proof {
        reveal(Seq::filter);
    }
    while i < pool.len()
        invariant
            i <= pool.len(),
            ambiguous@ == ambiguous_chars(),
            keep == |c: char| !is_ambiguous(c),
            stripped@ == pool@.subrange(0, i as int).filter(keep),
        decreases pool.len() - i,
    {
        let c = pool[i];
        proof {
            reveal(Seq::filter);
            assert(pool@.subrange(0, i + 1).drop_last() =~= pool@.subrange(0, i as int));
        }
        if !contains_char(ambiguous.as_slice(), c) {
            stripped.push(c);
        }
        i += 1;
    }
    proof {
        assert(pool@.subrange(0, i as int) =~= pool@);
    }
    stripped
}

/// The pools as sequences of characters.
pub open spec fn pools_view(pools: Seq<Vec<char>>) -> Seq<Seq<char>> {
    pools.map_values(|p: Vec<char>| p@)
}

/// Whether one of the pools has no character.
pub open spec fn has_empty_pool(pools: Seq<Seq<char>>) -> bool {
    exists|k: int| 0 <= k < pools.len() && (#[trigger] pools[k]).len() == 0
}

/// Whether the password holds a character of the pool.
pub open spec fn holds_char_of(password: Seq<char>, pool: Seq<char>) -> bool {
    exists|i: int| 0 <= i < password.len() && pool.contains(#[trigger] password[i])
}

/// Whether the character belongs to one of the pools.
pub open spec fn in_some_pool(c: char, pools: Seq<Seq<char>>) -> bool {
    exists|k: int| 0 <= k < pools.len() && (#[trigger] pools[k]).contains(c)
}

/// What is owed of a generated password: it has the requested length, holds a
/// character of every pool, and holds no character from outside the pools.
pub open spec fn well_formed(password: Seq<char>, len: nat, pools: Seq<Seq<char>>) -> bool {
    &&& password.len() == len
    &&& forall|k: int| 0 <= k < pools.len() ==> holds_char_of(password, #[trigger] pools[k])
    &&& forall|i: int| 0 <= i < password.len() ==> in_some_pool(#[trigger] password[i], pools)
}

/// The error that a request is answered with, if any: the length is tested
/// first, then the pools.
pub open spec fn generation_error(
    len: nat,
    symbols: Seq<char>,
    use_symbols: bool,
    allow_ambiguous: bool,
) -> Option<VaultError> {
    if len < MIN_PASSWORD_LEN {
        Some(VaultError::InvalidLength)
    } else if has_empty_pool(active_pools(symbols, use_symbols, allow_ambiguous)) {
        Some(VaultError::EmptyPool)
    } else {
        None
    }
}

/// The number of choices for position `k`: the first positions draw from one
/// pool each, the others from all pools together.
pub open spec fn pick_bound(pools: Seq<Seq<char>>, k: int) -> nat {
    if k < pools.len() {
        pools[k].len()
    } else {
        pools.flatten().len()
    }
}

/// Whether every pick is an index into what its position draws from.
pub open spec fn picks_valid(pools: Seq<Seq<char>>, picks: Seq<usize>) -> bool {
    forall|k: int| 0 <= k < picks.len() ==> (#[trigger] picks[k]) < pick_bound(pools, k)
}

/// The character that position `k` gets.
pub open spec fn picked_char(pools: Seq<Seq<char>>, picks: Seq<usize>, k: int) -> char {
    if k < pools.len() {
        pools[k][picks[k] as int]
    } else {
        pools.flatten()[picks[k] as int]
    }
}

/// The characters that a sequence of picks selects, before they are shuffled.
pub open spec fn selected(pools: Seq<Seq<char>>, picks: Seq<usize>) -> Seq<char> {
    Seq::new(picks.len(), |k: int| picked_char(pools, picks, k))
}

/// Whether the password can come out of a draw: there are picks, one for each
/// of `len` positions and each an index into what its position draws from, of
/// which the password holds the selected characters, in some order.
pub open spec fn drawable(password: Seq<char>, len: nat, pools: Seq<Seq<char>>) -> bool {
    exists|picks: Seq<usize>|
        picks.len() == len && #[trigger] picks_valid(pools, picks) && selected(
            pools,
            picks,
        ).to_multiset() == password.to_multiset()
}

/// Every character of the concatenated pools belongs to one of them.
pub proof fn lemma_flatten_member(pools: Seq<Seq<char>>, j: int)
    requires
        0 <= j < pools.flatten().len(),
    ensures
        in_some_pool(pools.flatten()[j], pools),
    decreases pools.len(),
{
    if pools.len() > 0 {
        let rest = pools.drop_first();
        if j < pools.first().len() {
            assert(pools[0].contains(pools.flatten()[j])) by {
                assert(pools[0][j] == pools.flatten()[j]);
            }
        } else {
            let c = pools.flatten()[j];
            assert(c == rest.flatten()[j - pools.first().len()]);
            lemma_flatten_member(rest, j - pools.first().len());
            let k = choose|k: int| 0 <= k < rest.len() && (#[trigger] rest[k]).contains(c);
            assert(pools[k + 1] == rest[k]);
        }
    }
}

/// A pool that has a character makes the concatenated pools have one.
pub proof fn lemma_flatten_nonempty(pools: Seq<Seq<char>>)
    requires
        pools.len() > 0,
        !has_empty_pool(pools),
    ensures
        pools.flatten().len() > 0,
{
    assert(pools[0].len() > 0);
}

/// The selected characters meet what is owed of a password, as soon as there
/// are at least as many positions as pools.
pub proof fn lemma_selected_well_formed(pools: Seq<Seq<char>>, picks: Seq<usize>)
    requires
        picks_valid(pools, picks),
        pools.len() <= picks.len(),
    ensures
        well_formed(selected(pools, picks), picks.len(), pools),
{
    let chars = selected(pools, picks);
    assert forall|k: int| 0 <= k < pools.len() implies holds_char_of(chars, #[trigger] pools[k]) by {
        assert(picks[k] < pick_bound(pools, k));
        assert(pools[k][picks[k] as int] == chars[k]);
        assert(pools[k].contains(chars[k]));
    }
    assert forall|i: int| 0 <= i < chars.len() implies in_some_pool(#[trigger] chars[i], pools) by {
        assert(picks[i] < pick_bound(pools, i));
        if i < pools.len() {
            assert(pools[i][picks[i] as int] == chars[i]);
            assert(pools[i].contains(chars[i]));
        } else {
            lemma_flatten_member(pools, picks[i] as int);
        }
    }
}

/// Putting the characters in another order keeps what is owed of a password.
pub proof fn lemma_reordering_keeps_well_formed(
    before: Seq<char>,
    after: Seq<char>,
    len: nat,
    pools: Seq<Seq<char>>,
)
    requires
        before.to_multiset() == after.to_multiset(),
        well_formed(before, len, pools),
    ensures
        well_formed(after, len, pools),
{
    before.to_multiset_ensures();
    after.to_multiset_ensures();
    assert forall|k: int| 0 <= k < pools.len() implies holds_char_of(after, #[trigger] pools[k]) by {
        assert(holds_char_of(before, pools[k]));
        let i = choose|i: int| 0 <= i < before.len() && pools[k].contains(#[trigger] before[i]);
        let c = before[i];
        assert(before.contains(c));
        vstd::seq_lib::to_multiset_contains(before, c);
        vstd::seq_lib::to_multiset_contains(after, c);
        let j = choose|j: int| 0 <= j < after.len() && after[j] == c;
        assert(pools[k].contains(after[j]));
    }
    assert forall|i: int| 0 <= i < after.len() implies in_some_pool(#[trigger] after[i], pools) by {
        let c = after[i];
        assert(after.contains(c));
        vstd::seq_lib::to_multiset_contains(before, c);
        vstd::seq_lib::to_multiset_contains(after, c);
        let j = choose|j: int| 0 <= j < before.len() && before[j] == c;
        assert(in_some_pool(before[j], pools));
    }
}

/// `String::push` appends the character to the string.
pub assume_specification[ String::push ](s: &mut String, c: char)
    ensures
        final(s)@ == old(s)@.push(c),
;

/// The string made of the given characters, in order.
pub fn string_of(chars: &[char]) -> (s: String)
    ensures
        s@ == chars@,
{
    let mut s = String::new();
    let mut i: usize = 0;
    while i < chars.len()
        invariant
            i <= chars.len(),
            s@ == chars@.subrange(0, i as int),
        decreases chars.len() - i,
    {
        s.push(chars[i]);
        i += 1;
    }
    proof {
        assert(chars@.subrange(0, i as int) =~= chars@);
    }
    s
}

/// The characters of a category that may be drawn, as a vector.
fn build_pool(pool: &str, allow_ambiguous: bool) -> (r: Vec<char>)
    ensures
        r@ == active_pool(pool@, allow_ambiguous),
{
    let all = chars_of(pool);
    if allow_ambiguous {
        all
    } else {
        strip_ambiguous(all.as_slice())
    }
}

/// Builds the pools that take part: lowercase, uppercase, digits, and the given
/// symbols if they are requested; without their ambiguous characters unless
/// those are allowed.
pub fn build_pools(symbols: &str, use_symbols: bool, allow_ambiguous: bool) -> (pools: Vec<
    Vec<char>,
>)
    ensures
        pools_view(pools@) == active_pools(symbols@, use_symbols, allow_ambiguous),
{
    let mut pools: Vec<Vec<char>> = Vec::new();
    pools.push(build_pool("abcdefghijklmnopqrstuvwxyz", allow_ambiguous));
    pools.push(build_pool("ABCDEFGHIJKLMNOPQRSTUVWXYZ", allow_ambiguous));
    pools.push(build_pool("0123456789", allow_ambiguous));
    if use_symbols {
        pools.push(build_pool(symbols, allow_ambiguous));
    }
    proof {
        assert(pools_view(pools@) =~= active_pools(symbols@, use_symbols, allow_ambiguous));
    }
    pools
}

/// Tests whether one of the pools has no character.
pub fn any_pool_empty(pools: &Vec<Vec<char>>) -> (empty: bool)
    ensures
        empty == has_empty_pool(pools_view(pools@)),
{
    let mut k: usize = 0;
    while k < pools.len()
        invariant
            k <= pools.len(),
            forall|j: int| 0 <= j < k ==> (#[trigger] pools_view(pools@)[j]).len() > 0,
        decreases pools.len() - k,
    {
        if pools[k].len() == 0 {
            proof {
                assert(pools_view(pools@)[k as int].len() == 0);
            }
            return true;
        }
        k += 1;
    }
    false
}

/// All pools one after the other.
pub fn concat_pools(pools: &Vec<Vec<char>>) -> (all: Vec<char>)
    ensures
        all@ == pools_view(pools@).flatten(),
{
    let mut all: Vec<char> = Vec::new();
    let mut k: usize = 0;
    while k < pools.len()
        invariant
            k <= pools.len(),
            all@ == pools_view(pools@).subrange(0, k as int).flatten(),
        decreases pools.len() - k,
    {
        let pool = &pools[k];
        let ghost before = all@;
        let mut i: usize = 0;
        while i < pool.len()
            invariant
                i <= pool.len(),
                all@ == before + pool@.subrange(0, i as int),
            decreases pool.len() - i,
        {
            all.push(pool[i]);
            i += 1;
        }
        proof {
            let seen = pools_view(pools@).subrange(0, k as int);
            assert(pool@.subrange(0, i as int) =~= pool@);
            assert(pools_view(pools@).subrange(0, k + 1) =~= seen.push(pool@));
            seen.lemma_flatten_push(pool@);
        }
        k += 1;
    }
    proof {
        assert(pools_view(pools@).subrange(0, k as int) =~= pools_view(pools@));
    }
    all
}

/// Draws one index for each of `len` positions: for the first positions an
/// index into the position's own pool, for the others an index into all pools
/// together.
fn draw_picks(pools: &Vec<Vec<char>>, len: usize) -> (picks: Vec<usize>)
    requires
        pools.len() > 0,
        !has_empty_pool(pools_view(pools@)),
    ensures
        picks@.len() == len,
        picks_valid(pools_view(pools@), picks@),
{
    let total = concat_pools(pools).len();
    proof {
        lemma_flatten_nonempty(pools_view(pools@));
    }
    let mut picks: Vec<usize> = Vec::new();
    let mut k: usize = 0;
    while k < len
        invariant
            k <= len,
            picks@.len() == k,
            total == pools_view(pools@).flatten().len(),
            total > 0,
            !has_empty_pool(pools_view(pools@)),
            picks_valid(pools_view(pools@), picks@),
        decreases len - k,
    {
        let bound = if k < pools.len() {
            proof {
                assert(pools_view(pools@)[k as int].len() > 0);
            }
            pools[k].len()
        } else {
            total
        };
        let pick = random_index(bound);
        picks.push(pick);
        k += 1;
    }
    picks
}

/// Selects the character of each position by its pick. The result is exact:
/// no randomness enters here.
pub fn select(pools: &Vec<Vec<char>>, picks: &Vec<usize>) -> (chars: Vec<char>)
    requires
        picks_valid(pools_view(pools@), picks@),
    ensures
        chars@ == selected(pools_view(pools@), picks@),
{
    let all = concat_pools(pools);
    let mut chars: Vec<char> = Vec::new();
    let mut k: usize = 0;
    while k < picks.len()
        invariant
            k <= picks.len(),
            all@ == pools_view(pools@).flatten(),
            picks_valid(pools_view(pools@), picks@),
            chars@ == selected(pools_view(pools@), picks@).subrange(0, k as int),
        decreases picks.len() - k,
    {
        let pick = picks[k];
        proof {
            assert(picks@[k as int] < pick_bound(pools_view(pools@), k as int));
        }
        let c = if k < pools.len() {
            pools[k][pick]
        } else {
            all[pick]
        };
        chars.push(c);
        k += 1;
        proof {
            assert(chars@ =~= selected(pools_view(pools@), picks@).subrange(0, k as int));
        }
    }
    proof {
        assert(selected(pools_view(pools@), picks@).subrange(0, k as int) =~= selected(
            pools_view(pools@),
            picks@,
        ));
    }
    chars
}

/// Generates a password of `len` characters over lowercase letters, uppercase
/// letters, digits and, if requested, the given symbols.
///
/// A length below four is refused with `InvalidLength`. Unless ambiguous
/// characters are allowed, they are removed from every pool first; a pool that
/// is left without characters makes the request fail with `EmptyPool`. The
/// password is a draw: one character from each pool, the others from all pools
/// together, put in some order. So it holds at least one character of every
/// pool and none from outside the pools. Which characters are drawn, and in
/// which order they stand, is decided by the operating system's random source.
pub fn generate_password_with(
    len: usize,
    symbols: &str,
    use_symbols: bool,
    allow_ambiguous: bool,
) -> (r: Result<String, VaultError>)
    ensures
        match r {
            Ok(password) => generation_error(len as nat, symbols@, use_symbols, allow_ambiguous)
                is None && drawable(
                password@,
                len as nat,
                active_pools(symbols@, use_symbols, allow_ambiguous),
            ) && well_formed(
                password@,
                len as nat,
                active_pools(symbols@, use_symbols, allow_ambiguous),
            ),
            Err(e) => generation_error(len as nat, symbols@, use_symbols, allow_ambiguous) == Some(
                e,
            ),
        },
{
    if len < MIN_PASSWORD_LEN {
        return Err(VaultError::InvalidLength);
    }
    let pools = build_pools(symbols, use_symbols, allow_ambiguous);
    if any_pool_empty(&pools) {
        return Err(VaultError::EmptyPool);
    }
    let picks = draw_picks(&pools, len);
    let mut chars = select(&pools, &picks);
    let ghost unshuffled = chars@;
    shuffle(&mut chars);
    proof {
        lemma_selected_well_formed(pools_view(pools@), picks@);
        lemma_reordering_keeps_well_formed(
            unshuffled,
            chars@,
            len as nat,
            pools_view(pools@),
        );
        assert(picks_valid(pools_view(pools@), picks@));
        assert(drawable(chars@, len as nat, pools_view(pools@)));
    }
    Ok(string_of(chars.as_slice()))
}

/// The letters and the digits keep a character when the ambiguous ones are
/// removed, so only the symbols can ever be left empty.
pub proof fn lemma_letters_and_digits_remain(allow_ambiguous: bool)
    ensures
        active_pool(lowercase_chars(), allow_ambiguous).len() > 0,
        active_pool(uppercase_chars(), allow_ambiguous).len() > 0,
        active_pool(digit_chars(), allow_ambiguous).len() > 0,
{
    reveal_strlit("abcdefghijklmnopqrstuvwxyz");
    reveal_strlit("ABCDEFGHIJKLMNOPQRSTUVWXYZ");
    reveal_strlit("0123456789");
    lemma_not_ambiguous_samples();
    let keep = |c: char| !is_ambiguous(c);
    assert(lowercase_chars()[0] == 'a');
    assert(uppercase_chars()[0] == 'A');
    assert(digit_chars()[2] == '2');
    lowercase_chars().lemma_filter_contains(keep, 0);
    uppercase_chars().lemma_filter_contains(keep, 0);
    digit_chars().lemma_filter_contains(keep, 2);
}

/// `a`, `A`, `2` and `!` are not ambiguous.
proof fn lemma_not_ambiguous_samples()
    ensures
        !is_ambiguous('a'),
        !is_ambiguous('A'),
        !is_ambiguous('2'),
        !is_ambiguous('!'),
{
    reveal_strlit("O0o1lI|`'\"{}[]()/\\;:.,<>");
    let s = ambiguous_chars();
    assert(s.len() == 24);
    assert forall|c: char| c == 'a' || c == 'A' || c == '2' || c == '!' implies !s.contains(c) by {
        assert forall|i: int| 0 <= i < 24 implies s[i] != c by {}
    }
}

/// With the standard symbols no pool is ever left empty.
pub proof fn lemma_standard_pools_remain(use_symbols: bool, allow_ambiguous: bool)
    ensures
        !has_empty_pool(active_pools(symbol_chars(), use_symbols, allow_ambiguous)),
{
    lemma_letters_and_digits_remain(allow_ambiguous);
    lemma_not_ambiguous_samples();
    reveal_strlit("!@#$%^&*()-_=+[]{};:,.<>/?~");
    assert(symbol_chars()[0] == '!');
    symbol_chars().lemma_filter_contains(|c: char| !is_ambiguous(c), 0);
}

/// Where the given symbols are all ambiguous, a request for symbols without
/// ambiguous characters is answered with `EmptyPool`: the category is not
/// silently left out.
pub proof fn lemma_stripped_symbols_empty(len: nat, symbols: Seq<char>)
    requires
        len >= MIN_PASSWORD_LEN,
        strip_ambiguous_spec(symbols).len() == 0,
    ensures
        generation_error(len, symbols, true, false) == Some(VaultError::EmptyPool),
{
    let pools = active_pools(symbols, true, false);
    assert(pools[3].len() == 0);
}

/// What is owed of a password over the standard pools, said character by
/// character.
pub open spec fn standard_password(
    password: Seq<char>,
    len: nat,
    use_symbols: bool,
    allow_ambiguous: bool,
) -> bool {
    &&& password.len() == len
    &&& holds_char_of(password, lowercase_chars())
    &&& holds_char_of(password, uppercase_chars())
    &&& holds_char_of(password, digit_chars())
    &&& use_symbols ==> holds_char_of(password, symbol_chars())
    &&& forall|i: int|
        0 <= i < password.len() ==> {
            let c = #[trigger] password[i];
            &&& lowercase_chars().contains(c) || uppercase_chars().contains(c)
                || digit_chars().contains(c) || (use_symbols && symbol_chars().contains(c))
            &&& !allow_ambiguous ==> !is_ambiguous(c)
        }
}

/// A character of an active pool is a character of the pool, and not an
/// ambiguous one unless those are allowed.
pub proof fn lemma_active_pool_member(pool: Seq<char>, allow_ambiguous: bool, c: char)
    requires
        active_pool(pool, allow_ambiguous).contains(c),
    ensures
        pool.contains(c),
        !allow_ambiguous ==> !is_ambiguous(c),
{
    if !allow_ambiguous {
        let keep = |c: char| !is_ambiguous(c);
        pool.lemma_filter_contains_rev(keep, c);
    }
}

/// The category that stands at place `k` among the pools, before anything is
/// removed from it.
pub open spec fn category(symbols: Seq<char>, k: int) -> Seq<char> {
    if k == 0 {
        lowercase_chars()
    } else if k == 1 {
        uppercase_chars()
    } else if k == 2 {
        digit_chars()
    } else {
        symbols
    }
}

/// Every active pool is what is left of its category.
pub proof fn lemma_active_pools_by_category(
    symbols: Seq<char>,
    use_symbols: bool,
    allow_ambiguous: bool,
    k: int,
)
    requires
        0 <= k < active_pools(symbols, use_symbols, allow_ambiguous).len(),
    ensures
        active_pools(symbols, use_symbols, allow_ambiguous).len() == if use_symbols {
            4int
        } else {
            3int
        },
        active_pools(symbols, use_symbols, allow_ambiguous)[k] == active_pool(
            category(symbols, k),
            allow_ambiguous,
        ),
{
}

/// A password that holds a character of an active pool holds one of its
/// category.
proof fn lemma_holds_char_of_category(password: Seq<char>, pool: Seq<char>, allow_ambiguous: bool)
    requires
        holds_char_of(password, active_pool(pool, allow_ambiguous)),
    ensures
        holds_char_of(password, pool),
{
    let i = choose|i: int|
        0 <= i < password.len() && active_pool(pool, allow_ambiguous).contains(
            #[trigger] password[i],
        );
    lemma_active_pool_member(pool, allow_ambiguous, password[i]);
}

/// A password that is well formed over the standard pools is a standard
/// password.
pub proof fn lemma_standard_password(
    password: Seq<char>,
    len: nat,
    use_symbols: bool,
    allow_ambiguous: bool,
)
    requires
        well_formed(password, len, active_pools(symbol_chars(), use_symbols, allow_ambiguous)),
    ensures
        standard_password(password, len, use_symbols, allow_ambiguous),
{
    let symbols = symbol_chars();
    let pools = active_pools(symbols, use_symbols, allow_ambiguous);
    lemma_active_pools_by_category(symbols, use_symbols, allow_ambiguous, 0);
    assert forall|k: int| 0 <= k < pools.len() implies holds_char_of(
        password,
        #[trigger] category(symbols, k),
    ) by {
        lemma_active_pools_by_category(symbols, use_symbols, allow_ambiguous, k);
        assert(holds_char_of(password, pools[k]));
        lemma_holds_char_of_category(password, category(symbols, k), allow_ambiguous);
    }
    assert(holds_char_of(password, category(symbols, 0)));
    assert(holds_char_of(password, category(symbols, 1)));
    assert(holds_char_of(password, category(symbols, 2)));
    if use_symbols {
        assert(holds_char_of(password, category(symbols, 3)));
    }
    assert forall|i: int| 0 <= i < password.len() implies {
        let c = #[trigger] password[i];
        &&& lowercase_chars().contains(c) || uppercase_chars().contains(c) || digit_chars().contains(
            c,
        ) || (use_symbols && symbol_chars().contains(c))
        &&& !allow_ambiguous ==> !is_ambiguous(c)
    } by {
        let c = password[i];
        assert(in_some_pool(c, pools));
        let k = choose|k: int| 0 <= k < pools.len() && (#[trigger] pools[k]).contains(c);
        lemma_active_pools_by_category(symbols, use_symbols, allow_ambiguous, k);
        lemma_active_pool_member(category(symbols, k), allow_ambiguous, c);
    }
}

/// Generates a password of `len` characters over lowercase letters, uppercase
/// letters, digits and, if requested, the standard symbols.
///
/// A length below four is refused with `InvalidLength`; every other request
/// succeeds. The password has exactly `len` characters, at least one of each
/// requested category, none from outside them and, unless they are allowed, no
/// ambiguous character; it is a draw from the active pools.
pub fn generate_password(len: usize, use_symbols: bool, allow_ambiguous: bool) -> (r: Result<
    String,
    VaultError,
>)
    ensures
        len < MIN_PASSWORD_LEN ==> r == Err::<String, VaultError>(VaultError::InvalidLength),
        len >= MIN_PASSWORD_LEN ==> r is Ok && standard_password(
            r->Ok_0@,
            len as nat,
            use_symbols,
            allow_ambiguous,
        ) && drawable(
            r->Ok_0@,
            len as nat,
            active_pools(symbol_chars(), use_symbols, allow_ambiguous),
        ),
{
    let r = generate_password_with(len, "!@#$%^&*()-_=+[]{};:,.<>/?~", use_symbols, allow_ambiguous);
    proof {
        lemma_standard_pools_remain(use_symbols, allow_ambiguous);
        if r is Ok {
            lemma_standard_password(r->Ok_0@, len as nat, use_symbols, allow_ambiguous);
        }
    }
    r
}

} // verus!
