use vstd::prelude::*;

verus! {

/// The character that opens, separates and closes a local directive.
pub const BANG: char = '!';

/// A local directive `!key!value!` read from one input line.
pub struct InternalCmd {
    pub key: String,
    pub value: String,
}

/// The lower-case form of a text, as `str::to_lowercase` gives it.
pub uninterp spec fn lower_of(s: Seq<char>) -> Seq<char>;

/// Relies on `str::to_lowercase`, handed out as its characters: the result
/// depends on the text alone.
#[verifier::external_body]
fn lowercase_chars(s: &str) -> (r: Vec<char>)
    ensures
        r@ == lower_of(s@),
{
    s.to_lowercase().chars().collect()
}

/// Relies on `String`'s `FromIterator<char>`: the string holds the given
/// characters in order.
#[verifier::external_body]
pub(crate) fn string_from_chars(cs: &[char]) -> (r: String)
    ensures
        r@ == cs@,
{
    cs.iter().collect()
}

/// `k` is the index of the separating `!` of a directive line: the line
/// opens and closes with `!`, and between those two the only `!` stands at
/// `k`, with at least one character on either side of it.
pub open spec fn separator_at(s: Seq<char>, k: int) -> bool {
    &&& 2 <= k
    &&& k + 3 <= s.len()
    &&& s[0] == BANG
    &&& s[s.len() - 1] == BANG
    &&& s[k] == BANG
    &&& forall|i: int| 0 < i < s.len() - 1 && i != k ==> s[i] != BANG
}

/// The line has the shape `!key!value!` with non-empty key and value.
pub open spec fn is_directive(s: Seq<char>) -> bool {
    exists|k: int| separator_at(s, k)
}

/// The index of the separating `!` of a directive line.
pub open spec fn separator(s: Seq<char>) -> int {
    choose|k: int| separator_at(s, k)
}

/// The text between the opening `!` and the separator.
pub open spec fn directive_key(s: Seq<char>) -> Seq<char> {
    s.subrange(1, separator(s))
}

/// The text between the separator and the closing `!`.
pub open spec fn directive_value(s: Seq<char>) -> Seq<char> {
    s.subrange(separator(s) + 1, s.len() - 1)
}

/// A line has at most one separator.
pub proof fn lemma_separator_unique(s: Seq<char>, k1: int, k2: int)
    requires
        separator_at(s, k1),
        separator_at(s, k2),
    ensures
        k1 == k2,
{
    if k1 != k2 {
        assert(s[k2] != BANG);
    }
}

/// Reading the lower-case line `s` into a record that held `before` gives
/// `r` and leaves `after`: `r` tells whether `s` is a directive; if so,
/// `after` holds its key and value, else `after` is `before`.
pub open spec fn parse_outcome(s: Seq<char>, before: InternalCmd, r: bool, after: InternalCmd) -> bool {
    &&& r == is_directive(s)
    &&& r ==> after.key@ == directive_key(s) && after.value@ == directive_value(s)
    &&& !r ==> after == before
}

/// Reading one line twice, into records that held anything at all, gives
/// the same answer each time, and on a directive the same key and value.
pub proof fn lemma_parse_repeatable(
    s: Seq<char>,
    before1: InternalCmd,
    r1: bool,
    after1: InternalCmd,
    before2: InternalCmd,
    r2: bool,
    after2: InternalCmd,
)
    requires
        parse_outcome(s, before1, r1, after1),
        parse_outcome(s, before2, r2, after2),
    ensures
        r1 == r2,
        r1 ==> after1.key@ == after2.key@ && after1.value@ == after2.value@,
{
}

/// Finds the separating `!` of a line that is already in lower case.
fn find_separator(line: &[char]) -> (r: Option<usize>)
    ensures
        r is Some == is_directive(line@),
        r matches Some(k) ==> k == separator(line@) && separator_at(line@, k as int),
{
    let n = line.len();
    if n < 2 || line[0] != BANG || line[n - 1] != BANG {
        return None;
    }
    let mut i: usize = 1;
    while i < n - 1 && line[i] != BANG
        invariant
            n == line@.len(),
            2 <= n,
            1 <= i <= n - 1,
            forall|j: int| 1 <= j < i ==> line@[j] != BANG,
        decreases n - 1 - i,
    {
        i = i + 1;
    }
    if i == n - 1 {
        assert forall|k: int| !separator_at(line@, k) by {
            if separator_at(line@, k) {
                assert(line@[k] == BANG);
            }
        }
        return None;
    }
    let k = i;
    let mut j: usize = k + 1;
    while j < n - 1
        invariant
            n == line@.len(),
            1 <= k < j <= n - 1,
            line@[k as int] == BANG,
            line@[0] == BANG,
            line@[n - 1] == BANG,
            forall|m: int| 1 <= m < k ==> line@[m] != BANG,
            forall|m: int| k < m < j ==> line@[m] != BANG,
        decreases n - 1 - j,
    {
        if line[j] == BANG {
            assert forall|k2: int| !separator_at(line@, k2) by {
                if separator_at(line@, k2) {
                    assert(line@[k as int] == BANG);
                    assert(line@[j as int] == BANG);
                }
            }
            return None;
        }
        j = j + 1;
    }
    assert(forall|m: int| 0 < m < n - 1 && m != k ==> line@[m] != BANG);
    if k < 2 || n - k < 3 {
        assert forall|k2: int| !separator_at(line@, k2) by {
            if separator_at(line@, k2) {
                assert(line@[k as int] == BANG);
            }
        }
        return None;
    }
    assert(separator_at(line@, k as int));
    proof {
        lemma_separator_unique(line@, k as int, separator(line@));
    }
    Some(k)
}

/// Reads a directive from a line that is already in lower case. On success
/// the key and value are stored in `parsed_cmd`; otherwise it is left as it
/// was.
pub fn parse_directive(line: &[char], parsed_cmd: &mut InternalCmd) -> (r: bool)
    ensures
        parse_outcome(line@, *old(parsed_cmd), r, *final(parsed_cmd)),
{
    match find_separator(line) {
        None => false,
        Some(k) => {
            let n = line.len();
            parsed_cmd.key = string_from_chars(&line[1..k]);
            parsed_cmd.value = string_from_chars(&line[k + 1..n - 1]);
            true
        },
    }
}

/// Reads a directive from an input line, which is first put in lower case.
pub fn parse_internal_cmd(cmd: &String, parsed_cmd: &mut InternalCmd) -> (r: bool)
    ensures
        parse_outcome(lower_of(cmd@), *old(parsed_cmd), r, *final(parsed_cmd)),
{
    let lowered = lowercase_chars(cmd.as_str());
    parse_directive(lowered.as_slice(), parsed_cmd)
}

pub open spec fn is_digit(c: char) -> bool {
    '0' <= c <= '9'
}

pub open spec fn all_digits(s: Seq<char>) -> bool {
    forall|i: int| 0 <= i < s.len() ==> is_digit(#[trigger] s[i])
}

/// The number that a string of decimal digits writes, most significant first.
pub open spec fn digits_value(s: Seq<char>) -> nat
    decreases s.len(),
{
    if s.len() == 0 {
        0
    } else {
        digits_value(s.drop_last()) * 10 + (s.last() as nat - '0' as nat) as nat
    }
}

/// The digits of a count of seconds, without the optional leading `+`.
pub open spec fn unsigned_digits(s: Seq<char>) -> Seq<char> {
    if s.len() > 0 && s[0] == '+' {
        s.drop_first()
    } else {
        s
    }
}

/// A count of seconds written in decimal, with an optional leading `+`, that
/// fits in a `u64`; `None` for any other text.
pub open spec fn seconds_of(s: Seq<char>) -> Option<u64> {
    let d = unsigned_digits(s);
    if d.len() > 0 && all_digits(d) && digits_value(d) <= u64::MAX {
        Some(digits_value(d) as u64)
    } else {
        None
    }
}

/// A longer run of digits writes a number at least as large.
pub proof fn lemma_digits_prefix_le(s: Seq<char>, i: int)
    requires
        0 <= i <= s.len(),
    ensures
        digits_value(s.subrange(0, i)) <= digits_value(s),
    decreases s.len(),
{
    if i < s.len() {
        assert(s.drop_last().subrange(0, i) =~= s.subrange(0, i));
        lemma_digits_prefix_le(s.drop_last(), i);
    } else {
        assert(s.subrange(0, i) =~= s);
    }
}

/// Reads a count of seconds.
pub fn parse_seconds(s: &[char]) -> (r: Option<u64>)
    ensures
        r == seconds_of(s@),
{
    let n = s.len();
    let start: usize = if n > 0 && s[0] == '+' { 1 } else { 0 };
    let ghost d = unsigned_digits(s@);
    assert(d =~= s@.subrange(start as int, n as int));
    if start == n {
        return None;
    }
    let mut acc: u64 = 0;
    let mut i: usize = start;
    while i < n
        invariant
            n == s@.len(),
            start <= i <= n,
            d == s@.subrange(start as int, n as int),
            d == unsigned_digits(s@),
            start < n,
            all_digits(d.subrange(0, i - start)),
            acc as nat == digits_value(d.subrange(0, i - start)),
        decreases n - i,
    {
        let c = s[i];
        if !('0' <= c && c <= '9') {
            assert(d[i - start] == c);
            assert(!is_digit(d[i - start]));
            assert(!all_digits(d));
            return None;
        }
        let digit: u64 = (c as u32 - '0' as u32) as u64;
        assert(d.subrange(0, i + 1 - start).drop_last() =~= d.subrange(0, i - start));
        if acc > (u64::MAX - digit) / 10 {
            assert(digits_value(d.subrange(0, i + 1 - start)) > u64::MAX) by (nonlinear_arith)
                requires
                    acc > (u64::MAX - digit) / 10,
                    digits_value(d.subrange(0, i + 1 - start)) == acc * 10 + digit,
            ;
            proof {
                lemma_digits_prefix_le(d, i + 1 - start);
            }
            assert(digits_value(d) > u64::MAX);
            return None;
        }
        acc = acc * 10 + digit;
        i = i + 1;
        assert(all_digits(d.subrange(0, i - start)));
    }
    assert(d.subrange(0, n - start) =~= d);
    Some(acc)
}

/// The key of the pause directive.
pub open spec fn sleep_key() -> Seq<char> {
    seq!['s', 'l', 'e', 'e', 'p']
}

/// What to do with one input line.
#[derive(Debug, PartialEq, Eq)]
pub enum LineAction {
    /// `!sleep!n!`: pause for `n` seconds; nothing is sent.
    Sleep(u64),
    /// Not a directive: the line is sent as it stands.
    Forward,
    /// A directive with a key that is not known: a warning names the key,
    /// then the line is sent as it stands.
    ForwardUnknown(String),
    /// `!sleep!v!` where `v` is not a count of seconds: reported, nothing is sent.
    BadSleep(String),
}

impl LineAction {
    /// The line is consumed here and never reaches the wire.
    pub open spec fn spec_handled_locally(&self) -> bool {
        self is Sleep || self is BadSleep
    }

    /// The line is consumed here and never reaches the wire.
    #[verifier::when_used_as_spec(spec_handled_locally)]
    pub fn handled_locally(&self) -> (r: bool)
        ensures
            r == self.spec_handled_locally(),
    {
        match self {
            LineAction::Sleep(_) | LineAction::BadSleep(_) => true,
            _ => false,
        }
    }
}

/// `r` is the action owed to a line that is already in lower case.
pub open spec fn action_for(s: Seq<char>, r: LineAction) -> bool {
    if !is_directive(s) {
        r is Forward
    } else if directive_key(s) != sleep_key() {
        r matches LineAction::ForwardUnknown(k) && k@ == directive_key(s)
    } else {
        match seconds_of(directive_value(s)) {
            Some(n) => r == LineAction::Sleep(n),
            None => r matches LineAction::BadSleep(v) && v@ == directive_value(s),
        }
    }
}

fn is_sleep_key(k: &[char]) -> (r: bool)
    ensures
        r == (k@ == sleep_key()),
{
    let r = k.len() == 5 && k[0] == 's' && k[1] == 'l' && k[2] == 'e' && k[3] == 'e' && k[4] == 'p';
    if r {
        assert(k@ =~= sleep_key());
    }
    r
}

/// Decides what to do with a line that is already in lower case.
pub fn classify_lowered(line: &[char]) -> (r: LineAction)
    ensures
        action_for(line@, r),
{
    match find_separator(line) {
        None => LineAction::Forward,
        Some(k) => {
            let n = line.len();
            let key = &line[1..k];
            let value = &line[k + 1..n - 1];
            if !is_sleep_key(key) {
                LineAction::ForwardUnknown(string_from_chars(key))
            } else {
                match parse_seconds(value) {
                    Some(secs) => LineAction::Sleep(secs),
                    None => LineAction::BadSleep(string_from_chars(value)),
                }
            }
        },
    }
}

/// Decides what to do with one input line, which is first put in lower
/// case: a `sleep` directive is consumed here, any other line is sent to the
/// Authority.
pub fn process_internal_cmd(cmd: &String) -> (r: LineAction)
    ensures
        action_for(lower_of(cmd@), r),
{
    let lowered = lowercase_chars(cmd.as_str());
    classify_lowered(lowered.as_slice())
}

/// Two actions agree: same kind, same count of seconds, same text.
pub open spec fn same_action(a: LineAction, b: LineAction) -> bool {
    match (a, b) {
        (LineAction::Sleep(x), LineAction::Sleep(y)) => x == y,
        (LineAction::Forward, LineAction::Forward) => true,
        (LineAction::ForwardUnknown(x), LineAction::ForwardUnknown(y)) => x@ == y@,
        (LineAction::BadSleep(x), LineAction::BadSleep(y)) => x@ == y@,
        _ => false,
    }
}

/// The action owed to a line depends on the line alone: whatever came
/// before, the same line is always dealt with in the same way.
pub proof fn lemma_action_repeatable(s: Seq<char>, a: LineAction, b: LineAction)
    requires
        action_for(s, a),
        action_for(s, b),
    ensures
        same_action(a, b),
{
}

/// The word that ends an interactive session, in any case.
pub open spec fn exit_word() -> Seq<char> {
    seq!['e', 'x', 'i', 't']
}

/// The line ends an interactive session: it is `exit` in any case.
pub fn is_exit_command(input: &String) -> (r: bool)
    ensures
        r == (lower_of(input@) == exit_word()),
{
    let lowered = lowercase_chars(input.as_str());
    is_exit_word(lowered.as_slice())
}

/// A line that is already in lower case is the word `exit`.
pub fn is_exit_word(k: &[char]) -> (r: bool)
    ensures
        r == (k@ == exit_word()),
{
    let r = k.len() == 4 && k[0] == 'e' && k[1] == 'x' && k[2] == 'i' && k[3] == 't';
    if r {
        assert(k@ =~= exit_word());
    }
    r
}

} // verus!
