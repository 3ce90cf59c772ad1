use crate::password::PasswordError;
use crate::rng;
use crate::security::SecString;
use vstd::prelude::*;
use vstd::string::StringExecFns;

verus! {

/// Number of lines a diceware wordlist must offer: the 6^5 outcomes of five
/// dice.
pub const DICEWARE_LINES: usize = 7776;

/// The fixed set of special characters the random generator may draw.
pub open spec fn is_special_char(c: char) -> bool {
    c == '!' || c == '#' || c == '$' || c == '%' || c == '&' || c == '*' || c == '+' || c == '-'
        || c == '_' || c == '.' || c == '/' || c == ':' || c == '=' || c == '?' || c == '~'
        || c == '`'
}

/// The union of the four character classes a random password draws from:
/// lowercase letters, uppercase letters, digits and the special set.
pub open spec fn is_password_char(c: char) -> bool {
    ||| 97 <= c as u32 <= 122
    ||| 65 <= c as u32 <= 90
    ||| 48 <= c as u32 <= 57
    ||| is_special_char(c)
}

/// A sequence of words joined by single spaces, with no trailing space.
pub open spec fn join_spaced(words: Seq<Seq<char>>) -> Seq<char>
    decreases words.len(),
{
    if words.len() == 0 {
        Seq::empty()
    } else if words.len() == 1 {
        words[0]
    } else {
        join_spaced(words.drop_last()) + seq![' '] + words.last()
    }
}

/// The views of a wordlist's lines.
pub open spec fn lines_view(lines: Seq<String>) -> Seq<Seq<char>> {
    lines.map_values(|l: String| l@)
}

/// The string holds no space.
pub open spec fn space_free(w: Seq<char>) -> bool {
    forall|x: int| 0 <= x < w.len() ==> w[x] != ' '
}

/// Splitting at every space, the way `str::split(' ')` does: the empty
/// string is one empty token, and each space ends the token before it.
pub open spec fn split_spaced(s: Seq<char>) -> Seq<Seq<char>>
    decreases s.len(),
{
    if s.len() == 0 {
        seq![Seq::<char>::empty()]
    } else if s[0] == ' ' {
        seq![Seq::<char>::empty()] + split_spaced(s.drop_first())
    } else {
        let rest = split_spaced(s.drop_first());
        seq![seq![s[0]] + rest[0]] + rest.drop_first()
    }
}

/// A space-free string is its own single token.
proof fn lemma_split_space_free(w: Seq<char>)
    requires
        space_free(w),
    ensures
        split_spaced(w) == seq![w],
    decreases w.len(),
{
    if w.len() == 0 {
        assert(split_spaced(w) =~~= seq![w]);
    } else {
        assert(space_free(w.drop_first()));
        lemma_split_space_free(w.drop_first());
        assert(seq![w[0]] + w.drop_first() =~= w);
        assert(split_spaced(w) =~~= seq![w]);
    }
}

/// Splitting a space-free token, a space, and a remainder yields the token
/// and then whatever the remainder yields.
proof fn lemma_split_prefix(w: Seq<char>, t: Seq<char>)
    requires
        space_free(w),
    ensures
        split_spaced(w + seq![' '] + t) == seq![w] + split_spaced(t),
    decreases w.len(),
{
    let s = w + seq![' '] + t;
    if w.len() == 0 {
        assert(s[0] == ' ');
        assert(s.drop_first() =~= t);
        assert(split_spaced(s) =~~= seq![w] + split_spaced(t));
    } else {
        assert(s[0] == w[0]);
        assert(s[0] != ' ');
        assert(space_free(w.drop_first()));
        assert(s.drop_first() =~= w.drop_first() + seq![' '] + t);
        lemma_split_prefix(w.drop_first(), t);
        let rest = split_spaced(s.drop_first());
        assert(rest == seq![w.drop_first()] + split_spaced(t));
        assert(rest[0] == w.drop_first());
        assert(rest.drop_first() =~= split_spaced(t));
        assert(seq![s[0]] + rest[0] =~= w);
        assert(split_spaced(s) =~~= seq![w] + split_spaced(t));
    }
}

/// The head form of [`join_spaced`]: the first word, a space, the rest.
proof fn lemma_join_head(ws: Seq<Seq<char>>)
    requires
        ws.len() >= 2,
    ensures
        join_spaced(ws) == ws[0] + seq![' '] + join_spaced(ws.drop_first()),
    decreases ws.len(),
{
    if ws.len() == 2 {
        assert(ws.drop_last()[0] == ws[0]);
        assert(join_spaced(ws.drop_last()) == ws[0]);
        assert(ws.drop_first().len() == 1);
        assert(join_spaced(ws.drop_first()) == ws.drop_first()[0]);
        assert(ws.drop_first()[0] == ws[1]);
        assert(join_spaced(ws) =~= ws[0] + seq![' '] + join_spaced(ws.drop_first()));
    } else {
        lemma_join_head(ws.drop_last());
        assert(ws.drop_last()[0] == ws[0]);
        assert(ws.drop_last().drop_first() =~= ws.drop_first().drop_last());
        assert(ws.drop_first().len() >= 2);
        assert(ws.drop_first().last() == ws.last());
        assert(join_spaced(ws.drop_first()) == join_spaced(ws.drop_first().drop_last())
            + seq![' '] + ws.last());
        assert(join_spaced(ws) == ws[0] + seq![' '] + join_spaced(ws.drop_last().drop_first())
            + seq![' '] + ws.last()) by {
            assert(join_spaced(ws) == join_spaced(ws.drop_last()) + seq![' '] + ws.last());
            assert((ws[0] + seq![' '] + join_spaced(ws.drop_last().drop_first())) + seq![' ']
                + ws.last() =~= ws[0] + seq![' '] + join_spaced(ws.drop_last().drop_first())
                + seq![' '] + ws.last());
        }
        assert(join_spaced(ws) =~= ws[0] + seq![' '] + join_spaced(ws.drop_first()));
    }
}

/// Splitting undoes joining: a join of space-free words splits back into
/// exactly those words.
pub proof fn lemma_split_join(ws: Seq<Seq<char>>)
    requires
        ws.len() >= 1,
        forall|j: int| 0 <= j < ws.len() ==> space_free(#[trigger] ws[j]),
    ensures
        split_spaced(join_spaced(ws)) == ws,
    decreases ws.len(),
{
    if ws.len() == 1 {
        lemma_split_space_free(ws[0]);
        assert(split_spaced(join_spaced(ws)) =~~= ws);
    } else {
        lemma_join_head(ws);
        assert(forall|j: int| 0 <= j < ws.drop_first().len() ==> space_free(
            #[trigger] ws.drop_first()[j],
        ));
        lemma_split_join(ws.drop_first());
        lemma_split_prefix(ws[0], join_spaced(ws.drop_first()));
        assert(ws[0] + seq![' '] + join_spaced(ws.drop_first()) =~= ws[0] + (seq![' ']
            + join_spaced(ws.drop_first())));
        assert(seq![ws[0]] + ws.drop_first() =~= ws);
    }
}

/// What the random method promises: exactly `n` characters, each from the
/// allowed classes.
pub open spec fn spec_random_ok(n: usize, s: Seq<char>) -> bool {
    &&& s.len() == n
    &&& forall|i: int| 0 <= i < s.len() ==> is_password_char(#[trigger] s[i])
}

/// What the diceware method promises: `words` words, each a line of the
/// wordlist, joined by single spaces.
pub open spec fn spec_diceware_ok(words: usize, lines: Seq<Seq<char>>, s: Seq<char>) -> bool {
    exists|ws: Seq<Seq<char>>|
        {
            &&& ws.len() == words
            &&& (forall|j: int| 0 <= j < ws.len() ==> lines.contains(#[trigger] ws[j]))
            &&& s == join_spaced(ws)
        }
}

/// The diceware shape, as an observer sees it: provided no wordlist line
/// holds a space, a generated passphrase of at least one word splits at its
/// spaces into exactly `words` tokens, each one a line of the wordlist.
pub proof fn lemma_diceware_shape(words: usize, lines: Seq<Seq<char>>, s: Seq<char>)
    requires
        words >= 1,
        spec_diceware_ok(words, lines, s),
        forall|i: int| 0 <= i < lines.len() ==> space_free(#[trigger] lines[i]),
    ensures
        split_spaced(s).len() == words,
        forall|j: int| 0 <= j < split_spaced(s).len() ==> lines.contains(
            #[trigger] split_spaced(s)[j],
        ),
{
    let ws = choose|ws: Seq<Seq<char>>|
        {
            &&& ws.len() == words
            &&& (forall|j: int| 0 <= j < ws.len() ==> lines.contains(#[trigger] ws[j]))
            &&& s == join_spaced(ws)
        };
    assert forall|j: int| 0 <= j < ws.len() implies space_free(#[trigger] ws[j]) by {
        assert(lines.contains(ws[j]));
        let li = choose|li: int| 0 <= li < lines.len() && lines[li] == ws[j];
        assert(space_free(lines[li]));
    }
    lemma_split_join(ws);
}

/// Relies on String's `FromIterator` implementation: collecting characters
/// yields the string of exactly those characters.
#[verifier::external_body]
fn chars_to_string(chars: &Vec<char>) -> (r: String)
    ensures
        r@ == chars@,
{
    chars.iter().collect()
}

/// Random password generator: draws each character from one of four classes
/// with weights 2:2:2:1 (lowercase, uppercase, digit, special).
#[derive(Debug, Clone)]
pub struct Random {
    /// The password length, in characters.
    pub length: usize,
}

impl Random {
    /// A generator for passwords of exactly `length` characters.
    pub fn new(length: usize) -> (r: Self)
        ensures
            r.length == length,
    {
        Random { length }
    }

    /// Draws `length` characters, each from the union of the four allowed
    /// classes.
    pub fn generate(&self) -> (r: Result<String, PasswordError>)
        ensures
            r is Ok,
            r matches Ok(s) ==> spec_random_ok(self.length, s@),
    {
        let mut chars: Vec<char> = Vec::new();
        let mut k: usize = 0;
        while k < self.length
            invariant
                k <= self.length,
                chars@.len() == k,
                forall|i: int| 0 <= i < chars@.len() ==> is_password_char(#[trigger] chars@[i]),
            decreases self.length - k,
        {
            let category = rng::os_random_range(0, 6);
            let c: char = if category <= 1 {
                let off = rng::os_random_range(0, 25);
                ((97 + off) as u8) as char
            } else if category <= 3 {
                let off = rng::os_random_range(0, 25);
                ((65 + off) as u8) as char
            } else if category <= 5 {
                let off = rng::os_random_range(0, 9);
                ((48 + off) as u8) as char
            } else {
                let idx = rng::os_random_range(0, 15);
                match idx {
                    0 => '!',
                    1 => '#',
                    2 => '$',
                    3 => '%',
                    4 => '&',
                    5 => '*',
                    6 => '+',
                    7 => '-',
                    8 => '_',
                    9 => '.',
                    10 => '/',
                    11 => ':',
                    12 => '=',
                    13 => '?',
                    14 => '~',
                    _ => '`',
                }
            };
            chars.push(c);
            k += 1;
        }
        Ok(chars_to_string(&chars))
    }
}

/// Diceware password generator: five simulated dice select one line of a
/// caller-supplied wordlist for each word.
#[derive(Debug, Clone)]
pub struct Diceware {
    /// Path of the newline-delimited wordlist file; the caller reads it and
    /// hands the lines to [`Diceware::generate`].
    pub source_path: String,
    /// The number of words to generate.
    pub words: usize,
}

impl Diceware {
    /// A generator for passphrases of exactly `words` wordlist words.
    pub fn new(source_path: String, words: usize) -> (r: Self)
        ensures
            r.source_path@ == source_path@,
            r.words == words,
    {
        Diceware { source_path, words }
    }

    /// Chooses `words` lines by five-dice draws (base-6 indices 0..7775) and
    /// joins them with single spaces. Fails when the wordlist has fewer lines
    /// than the highest reachable index.
    pub fn generate(&self, lines: &Vec<String>) -> (r: Result<String, PasswordError>)
        ensures
            r is Ok <==> lines@.len() >= DICEWARE_LINES,
            r matches Ok(s) ==> spec_diceware_ok(self.words, lines_view(lines@), s@),
    {
        if lines.len() < DICEWARE_LINES {
            return Err(PasswordError::Unknown);
        }
        let mut password = String::new();
        let ghost mut ws: Seq<Seq<char>> = Seq::empty();
        let mut k: usize = 0;
        while k < self.words
            invariant
                k <= self.words,
                ws.len() == k,
                forall|j: int| 0 <= j < ws.len() ==> lines_view(lines@).contains(
                    #[trigger] ws[j],
                ),
                password@ == join_spaced(ws),
                lines@.len() >= DICEWARE_LINES,
            decreases self.words - k,
        {
            let d0 = rng::os_random_range(0, 5) as usize;
            let d1 = rng::os_random_range(0, 5) as usize;
            let d2 = rng::os_random_range(0, 5) as usize;
            let d3 = rng::os_random_range(0, 5) as usize;
            let d4 = rng::os_random_range(0, 5) as usize;
            let line = d4 + d3 * 6 + d2 * 36 + d1 * 216 + d0 * 1296;
            let word = &lines[line];
            if k > 0 {
                password.append(" ");
            }
            password.append(word.as_str());
            proof {
                reveal_strlit(" ");
                assert(" "@ =~= seq![' ']);
                let prev = ws;
                ws = ws.push(word@);
                assert(ws.drop_last() =~= prev);
                assert(lines_view(lines@)[line as int] == word@);
                assert(lines_view(lines@).contains(word@));
            }
            k += 1;
        }
        Ok(password)
    }
}

/// How a password should be generated.
#[derive(Debug, Clone)]
pub enum GenerationMethod {
    /// A random password of the given number of characters.
    Random(usize),
    /// A diceware passphrase: wordlist path and number of words.
    Diceware(String, usize),
}

/// Password generator dispatching over a [`GenerationMethod`].
#[derive(Debug, Clone)]
pub struct Generator {
    /// The configured generation method.
    pub method: GenerationMethod,
}

impl Generator {
    /// A generator for the given method.
    pub fn new(method: GenerationMethod) -> (r: Self)
        ensures
            r.method == method,
    {
        Generator { method }
    }

    /// Generates a password by the configured method. `wordlist` supplies the
    /// lines of the diceware wordlist; the random method ignores it.
    pub fn generate(&self, wordlist: &Vec<String>) -> (r: Result<String, PasswordError>)
        ensures
            match self.method {
                GenerationMethod::Random(n) => r is Ok && (r matches Ok(s) ==> spec_random_ok(
                    n,
                    s@,
                )),
                GenerationMethod::Diceware(_, n) => (r is Ok <==> wordlist@.len()
                    >= DICEWARE_LINES) && (r matches Ok(s) ==> spec_diceware_ok(
                    n,
                    lines_view(wordlist@),
                    s@,
                )),
            },
    {
        match &self.method {
            GenerationMethod::Random(length) => Random::new(*length).generate(),
            GenerationMethod::Diceware(path, words) => Diceware::new(
                path.clone(),
                *words,
            ).generate(wordlist),
        }
    }

    /// Like [`Generator::generate`], wrapping the result in a secure buffer.
    pub fn password(&self, wordlist: &Vec<String>) -> (r: Result<SecString, PasswordError>)
        ensures
            match self.method {
                GenerationMethod::Random(n) => r is Ok && (r matches Ok(s) ==> spec_random_ok(
                    n,
                    s@,
                )),
                GenerationMethod::Diceware(_, n) => (r is Ok <==> wordlist@.len()
                    >= DICEWARE_LINES) && (r matches Ok(s) ==> spec_diceware_ok(
                    n,
                    lines_view(wordlist@),
                    s@,
                )),
            },
    {
        match self.generate(wordlist) {
            Ok(s) => Ok(SecString::new(s)),
            Err(e) => Err(e),
        }
    }
}

impl From<GenerationMethod> for Generator {
    fn from(method: GenerationMethod) -> Self {
        Generator { method }
    }
}

impl vstd::std_specs::convert::FromSpecImpl<GenerationMethod> for Generator {
    open spec fn obeys_from_spec() -> bool {
        true
    }

    open spec fn from_spec(method: GenerationMethod) -> Self {
        Generator { method }
    }
}

} // verus!
