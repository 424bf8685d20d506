//! Destination paths: an ordinal sequence of names joined onto a base
//! directory.
use vstd::prelude::*;

verus! {

/// The character of the decimal digit `d` (for `0 <= d < 10`).
pub open spec fn digit_char(d: int) -> char {
    seq!['0', '1', '2', '3', '4', '5', '6', '7', '8', '9'][d]
}

/// The decimal form of `n`: no sign, no padding, no leading zeros.
pub open spec fn decimal(n: nat) -> Seq<char>
    decreases n,
{
    if n < 10 {
        seq![digit_char(n as int)]
    } else {
        decimal(n / 10).push(digit_char((n % 10) as int))
    }
}

/// `name` joined onto the directory `base`, as a path: a name that is
/// itself absolute replaces the base; otherwise a separator is put between
/// the two unless the base is empty or already ends in one.
pub open spec fn join_path(base: Seq<char>, name: Seq<char>) -> Seq<char> {
    if name.len() > 0 && name[0] == '/' {
        name
    } else if base.len() == 0 || base.last() == '/' {
        base + name
    } else {
        base + seq!['/'] + name
    }
}

/// The one-character text of the digit `d`.
fn digit_text(d: usize) -> (r: &'static str)
    requires
        d < 10,
    ensures
        r@ == seq![digit_char(d as int)],
{
    let digits = "0123456789";
    proof {
        reveal_strlit("0123456789");
    }
    let r = digits.substring_char(d, d + 1);
    assert(r@ =~= seq![digit_char(d as int)]);
    r
}

/// Renders `n` in decimal.
pub fn decimal_text(n: usize) -> (r: String)
    ensures
        r@ == decimal(n as nat),
    decreases n,
{
    if n < 10 {
        String::from_str(digit_text(n))
    } else {
        let mut text = decimal_text(n / 10);
        text.append(digit_text(n % 10));
        text
    }
}

/// Joins `name` onto the directory `base` (see `join_path`).
pub fn join(base: &str, name: &str) -> (r: String)
    ensures
        r@ == join_path(base@, name@),
{
    let name_len = name.unicode_len();
    if name_len > 0 && name.get_char(0) == '/' {
        return String::from_str(name);
    }
    let base_len = base.unicode_len();
    let mut path = String::from_str(base);
    if base_len > 0 && base.get_char(base_len - 1) != '/' {
        let separator = "/";
        proof {
            reveal_strlit("/");
        }
        path.append(separator);
    }
    path.append(name);
    path
}

/// Hands out destination paths one after the other, deterministically and
/// with no outside input.
pub trait FilenameGenerator {
    /// The path that `generate` returns `i` calls from now.
    spec fn path_at(&self, i: nat) -> Seq<char>;

    /// How many more paths this generator can hand out.
    spec fn remaining(&self) -> nat;

    /// Whether `next` is this generator moved on by one path, with the rest
    /// of its state (a base directory, a sequence of tokens) moved along.
    spec fn advanced_to(&self, next: &Self) -> bool;

    /// Returns the next path and moves on by one.
    fn generate(&mut self) -> (r: String)
        requires
            old(self).remaining() > 0,
        ensures
            r@ == old(self).path_at(0),
            old(self).advanced_to(final(self)),
            final(self).remaining() == old(self).remaining() - 1,
            forall|i: nat| #[trigger] final(self).path_at(i) == old(self).path_at(i + 1),
    ;
}

/// A path generator split in two: a sequence of raw name tokens, and the
/// rendering of a token as text, joined onto a fixed base directory.
pub trait PathFilenameGenerator {
    type Name;

    /// The token that `next_name` returns `i` calls from now.
    spec fn name_at(&self, i: nat) -> Self::Name;

    /// The text of a token.
    spec fn name_text(name: Self::Name) -> Seq<char>;

    /// The base directory.
    spec fn root(&self) -> Seq<char>;

    /// How many more tokens this generator can hand out.
    spec fn remaining_names(&self) -> nat;

    /// Returns the next token and moves on by one.
    fn next_name(&mut self) -> (r: Self::Name)
        requires
            old(self).remaining_names() > 0,
        ensures
            r == old(self).name_at(0),
            final(self).root() == old(self).root(),
            final(self).remaining_names() == old(self).remaining_names() - 1,
            forall|i: nat| #[trigger] final(self).name_at(i) == old(self).name_at(i + 1),
    ;

    /// Renders a token as text.
    fn render(name: &Self::Name) -> (r: String)
        ensures
            r@ == Self::name_text(*name),
    ;

    /// The base directory.
    fn base_path(&self) -> (r: &str)
        ensures
            r@ == self.root(),
    ;
}

impl<T: PathFilenameGenerator> FilenameGenerator for T {
    open spec fn path_at(&self, i: nat) -> Seq<char> {
        join_path(self.root(), T::name_text(self.name_at(i)))
    }

    open spec fn remaining(&self) -> nat {
        self.remaining_names()
    }

    open spec fn advanced_to(&self, next: &Self) -> bool {
        &&& next.root() == self.root()
        &&& next.remaining_names() + 1 == self.remaining_names()
        &&& forall|i: nat| #[trigger] next.name_at(i) == self.name_at(i + 1)
    }

    fn generate(&mut self) -> (r: String) {
        let name = self.next_name();
        let text = T::render(&name);
        join(self.base_path(), text.as_str())
    }
}

/// Names files `0`, `1`, `2`, ... inside a base directory.
pub struct OrdinalPathFilenameGenerator {
    root: String,
    current: usize,
}

impl OrdinalPathFilenameGenerator {
    /// The base directory.
    pub closed spec fn root_dir(&self) -> Seq<char> {
        self.root@
    }

    /// The ordinal that the next path carries.
    pub closed spec fn cursor(&self) -> nat {
        self.current as nat
    }

    /// The cursor never exceeds the largest `usize`.
    pub proof fn lemma_cursor_bound(&self)
        ensures
            self.cursor() <= usize::MAX,
    {
    }

    /// A generator whose first path is `root/0`.
    pub fn new(root: &str) -> (r: Self)
        ensures
            r.root_dir() == root@,
            r.cursor() == 0,
    {
        OrdinalPathFilenameGenerator { root: String::from_str(root), current: 0 }
    }
}

impl<'a> From<&'a str> for OrdinalPathFilenameGenerator {
    fn from(root: &'a str) -> (r: Self)
        ensures
            r.root_dir() == root@,
            r.cursor() == 0,
    {
        Self::new(root)
    }
}

/// Two generators with roots of the same text need not be equal values, so
/// no equation `from_spec` can be given; the `ensures` of `from` states what
/// it builds.
impl<'a> vstd::std_specs::convert::FromSpecImpl<&'a str> for OrdinalPathFilenameGenerator {
    open spec fn obeys_from_spec() -> bool {
        false
    }

    open spec fn from_spec(root: &'a str) -> Self {
        arbitrary()
    }
}

impl PathFilenameGenerator for OrdinalPathFilenameGenerator {
    type Name = usize;

    open spec fn name_at(&self, i: nat) -> usize {
        (self.cursor() + i) as usize
    }

    open spec fn name_text(name: usize) -> Seq<char> {
        decimal(name as nat)
    }

    open spec fn root(&self) -> Seq<char> {
        self.root_dir()
    }

    open spec fn remaining_names(&self) -> nat {
        (usize::MAX - self.cursor()) as nat
    }

    fn next_name(&mut self) -> (r: usize)
        ensures
            final(self).cursor() == old(self).cursor() + 1,
    {
        let current = self.current;
        self.current = self.current + 1;
        current
    }

    fn render(name: &usize) -> (r: String) {
        decimal_text(*name)
    }

    fn base_path(&self) -> (r: &str) {
        self.root.as_str()
    }
}

/// The digit `d` is the character with code `48 + d`.
proof fn lemma_digit_char(d: int)
    requires
        0 <= d < 10,
    ensures
        digit_char(d) as u32 == 48 + d,
{
    let digits = seq!['0', '1', '2', '3', '4', '5', '6', '7', '8', '9'];
    assert(digits[0] == '0' && digits[1] == '1' && digits[2] == '2' && digits[3] == '3');
    assert(digits[4] == '4' && digits[5] == '5' && digits[6] == '6' && digits[7] == '7');
    assert(digits[8] == '8' && digits[9] == '9');
}

/// A decimal form is never empty and starts with a digit.
proof fn lemma_decimal_shape(n: nat)
    ensures
        decimal(n).len() >= 1,
        decimal(n)[0] as u32 >= 48,
    decreases n,
{
    if n < 10 {
        lemma_digit_char(n as int);
    } else {
        lemma_decimal_shape(n / 10);
    }
}

/// Different numbers have different decimal forms.
proof fn lemma_decimal_injective(a: nat, b: nat)
    requires
        decimal(a) == decimal(b),
    ensures
        a == b,
    decreases a,
{
    if a < 10 && b < 10 {
        assert(decimal(a)[0] == digit_char(a as int));
        assert(decimal(b)[0] == digit_char(b as int));
        lemma_digit_char(a as int);
        lemma_digit_char(b as int);
    } else if a < 10 {
        lemma_decimal_shape(b / 10);
        assert(decimal(b).len() >= 2);
    } else if b < 10 {
        lemma_decimal_shape(a / 10);
        assert(decimal(a).len() >= 2);
    } else {
        let da = decimal(a);
        let db = decimal(b);
        assert(da.last() == db.last());
        lemma_digit_char((a % 10) as int);
        lemma_digit_char((b % 10) as int);
        assert(decimal(a / 10) =~= da.drop_last());
        assert(decimal(b / 10) =~= db.drop_last());
        lemma_decimal_injective(a / 10, b / 10);
    }
}

/// Joining two relative names onto one base gives the same path only for
/// the same name.
proof fn lemma_join_injective(base: Seq<char>, a: Seq<char>, b: Seq<char>)
    requires
        a.len() > 0 && a[0] != '/',
        b.len() > 0 && b[0] != '/',
        join_path(base, a) == join_path(base, b),
    ensures
        a == b,
{
    let p = join_path(base, a);
    let k = p.len() - a.len();
    assert(p.subrange(k, p.len() as int) =~= a);
    assert(join_path(base, b).subrange(k, p.len() as int) =~= b);
}

/// A fresh ordinal generator rooted at `base` hands out, call after call,
/// `base/0`, `base/1`, `base/2`, ... in that order, and never the same path
/// twice.
pub proof fn lemma_ordinal_paths(base: Seq<char>, g: OrdinalPathFilenameGenerator)
    requires
        g.root_dir() == base,
        g.cursor() == 0,
    ensures
        g.remaining() == usize::MAX,
        forall|i: nat| i < g.remaining() ==> #[trigger] g.path_at(i) == join_path(base, decimal(i)),
        forall|i: nat, j: nat|
            i < g.remaining() && j < g.remaining() && i != j ==> #[trigger] g.path_at(i)
                != #[trigger] g.path_at(j),
{
    assert forall|i: nat, j: nat|
        i < g.remaining() && j < g.remaining() && i != j implies #[trigger] g.path_at(i)
        != #[trigger] g.path_at(j) by {
        lemma_decimal_shape(i);
        lemma_decimal_shape(j);
        if g.path_at(i) == g.path_at(j) {
            lemma_join_injective(base, decimal(i), decimal(j));
            lemma_decimal_injective(i, j);
        }
    }
}

} // verus!
