//! Building the texts that reach an operator: messages, lists and numbers.
use vstd::prelude::*;

verus! {

/// `String::push`: adds a character at the end.
pub assume_specification[ String::push ](s: &mut String, ch: char)
    ensures
        final(s)@ == old(s)@.push(ch),
;

/// The decimal digits of `n`, most significant first.
pub open spec fn decimal(n: nat) -> Seq<char>
    decreases n,
{
    if n < 10 {
        seq![digit(n)]
    } else {
        decimal(n / 10).push(digit(n % 10))
    }
}

/// The character of one decimal digit.
pub open spec fn digit(d: nat) -> char {
    (48 + d) as char
}

/// `parts` one after the other, with `separator` between any two neighbours.
pub open spec fn joined(parts: Seq<Seq<char>>, separator: Seq<char>) -> Seq<char>
    decreases parts.len(),
{
    if parts.len() == 0 {
        Seq::empty()
    } else if parts.len() == 1 {
        parts[0]
    } else {
        joined(parts.drop_last(), separator) + separator + parts.last()
    }
}

/// The texts of a list of strings.
pub open spec fn texts(list: Seq<String>) -> Seq<Seq<char>> {
    Seq::new(list.len(), |i: int| list[i]@)
}

/// The text of one digit.
fn digit_text(d: u128) -> (text: &'static str)
    requires
        d < 10,
    ensures
        text@ == seq![digit(d as nat)],
{
    proof {
        reveal_strlit("0");
        reveal_strlit("1");
        reveal_strlit("2");
        reveal_strlit("3");
        reveal_strlit("4");
        reveal_strlit("5");
        reveal_strlit("6");
        reveal_strlit("7");
        reveal_strlit("8");
        reveal_strlit("9");
    }
    let text = match d {
        0 => "0",
        1 => "1",
        2 => "2",
        3 => "3",
        4 => "4",
        5 => "5",
        6 => "6",
        7 => "7",
        8 => "8",
        _ => "9",
    };
    assert(text@ =~= seq![digit(d as nat)]);
    text
}

/// Writes `n` in decimal.
pub fn number(n: u128) -> (text: String)
    ensures
        text@ == decimal(n as nat),
    decreases n,
{
    if n < 10 {
        digit_text(n).to_owned()
    } else {
        let mut text = number(n / 10);
        let last = digit_text(n % 10);
        text.append(last);
        assert(text@ =~= decimal(n as nat));
        text
    }
}

/// Joins the strings of `parts`, with `separator` between any two neighbours.
pub fn join(parts: &Vec<String>, separator: &str) -> (text: String)
    ensures
        text@ == joined(texts(parts@), separator@),
{
    let mut text = String::new();
    let mut i: usize = 0;
    while i < parts.len()
        invariant
            i <= parts.len(),
            text@ == joined(texts(parts@).take(i as int), separator@),
        decreases parts.len() - i,
    {
        let ghost before = texts(parts@).take(i as int);
        let ghost after = texts(parts@).take(i + 1);
        assert(after.drop_last() =~= before);
        assert(after.last() == parts@[i as int]@);
        if i > 0 {
            text.append(separator);
        } else {
            assert(text@ =~= Seq::empty());
        }
        text.append(parts[i].as_str());
        assert(text@ =~= joined(after, separator@));
        i = i + 1;
    }
    assert(texts(parts@).take(i as int) =~= texts(parts@));
    text
}

/// What `f` gives for each number below `n`, in order.
pub open spec fn gather<T>(n: nat, f: spec_fn(int) -> Seq<T>) -> Seq<T>
    decreases n,
{
    if n == 0 {
        Seq::empty()
    } else {
        gather((n - 1) as nat, f) + f(n - 1)
    }
}

/// One message, or none.
pub open spec fn only_if(condition: bool, message: Seq<char>) -> Seq<Seq<char>> {
    if condition {
        seq![message]
    } else {
        Seq::empty()
    }
}

/// Gathering goes by what is given for the numbers that are gone through.
pub proof fn gather_same<T>(n: nat, f: spec_fn(int) -> Seq<T>, g: spec_fn(int) -> Seq<T>)
    requires
        forall|i: int| 0 <= i < n ==> #[trigger] f(i) == g(i),
    ensures
        gather(n, f) == gather(n, g),
    decreases n,
{
    if n > 0 {
        gather_same((n - 1) as nat, f, g);
        assert(f(n - 1) == g(n - 1));
    }
}

/// What holds of all that is given for each number holds of all that is
/// gathered.
pub proof fn gather_all<T>(n: nat, f: spec_fn(int) -> Seq<T>, holds: spec_fn(T) -> bool)
    requires
        forall|i: int, k: int| 0 <= i < n && 0 <= k < f(i).len() ==> holds(#[trigger] f(i)[k]),
    ensures
        forall|k: int| 0 <= k < gather(n, f).len() ==> holds(#[trigger] gather(n, f)[k]),
    decreases n,
{
    if n > 0 {
        gather_all((n - 1) as nat, f, holds);
        let before = gather((n - 1) as nat, f);
        assert forall|k: int| 0 <= k < gather(n, f).len() implies holds(#[trigger] gather(n, f)[k]) by {
            if k < before.len() {
                assert(gather(n, f)[k] == before[k]);
            } else {
                assert(gather(n, f)[k] == f(n - 1)[k - before.len()]);
            }
        }
    }
}

/// Nothing is gathered just where nothing is given for any number.
pub proof fn gather_empty<T>(n: nat, f: spec_fn(int) -> Seq<T>)
    ensures
        gather(n, f).len() == 0 <==> forall|i: int| 0 <= i < n ==> (#[trigger] f(i)).len() == 0,
    decreases n,
{
    if n > 0 {
        gather_empty((n - 1) as nat, f);
        if gather(n, f).len() == 0 {
            assert forall|i: int| 0 <= i < n implies (#[trigger] f(i)).len() == 0 by {
                if i == n - 1 {
                    assert(f(n - 1).len() == 0);
                }
            }
        }
        if forall|i: int| 0 <= i < n ==> (#[trigger] f(i)).len() == 0 {
            assert(f(n - 1).len() == 0);
        }
    }
}

/// Adds a string to a list.
pub fn push_text(list: &mut Vec<String>, text: String)
    ensures
        texts(final(list)@) == texts(old(list)@).push(text@),
{
    list.push(text);
    assert(texts(list@) =~= texts(old(list)@).push(text@));
}

/// Moves the strings of one list behind those of another.
pub fn append_texts(list: &mut Vec<String>, more: Vec<String>)
    ensures
        texts(final(list)@) == texts(old(list)@) + texts(more@),
{
    let ghost added = more@;
    let mut more = more;
    list.append(&mut more);
    assert(texts(list@) =~= texts(old(list)@) + texts(added));
}

/// Whether a text holds a character.
pub fn has_char(text: &str, wanted: char) -> (found: bool)
    ensures
        found == text@.contains(wanted),
{
    for c in iter: text.chars()
        invariant
            iter.seq() == text@,
            forall|i: int| 0 <= i < iter.index() ==> text@[i] != wanted,
    {
        if c == wanted {
            assert(text@[iter.index() as int] == wanted);
            return true;
        }
    }
    false
}

/// Whether two texts are equal.
pub fn same_text(a: &str, b: &str) -> (same: bool)
    ensures
        same == (a@ == b@),
{
    let a = a.to_owned();
    let b = b.to_owned();
    a == b
}

/// Whether a list holds a text.
pub fn holds_text(list: &Vec<String>, wanted: &str) -> (found: bool)
    ensures
        found == texts(list@).contains(wanted@),
{
    let mut i: usize = 0;
    while i < list.len()
        invariant
            i <= list.len(),
            forall|j: int| 0 <= j < i ==> #[trigger] texts(list@)[j] != wanted@,
        decreases list.len() - i,
    {
        if same_text(list[i].as_str(), wanted) {
            assert(texts(list@)[i as int] == wanted@);
            return true;
        }
        i = i + 1;
    }
    false
}

/// The characters of a text.
pub fn to_chars(text: &str) -> (chars: Vec<char>)
    ensures
        chars@ == text@,
{
    let mut chars: Vec<char> = Vec::new();
    for c in iter: text.chars()
        invariant
            iter.seq() == text@,
            chars@ == text@.take(iter.index()),
    {
        chars.push(c);
        assert(chars@ =~= text@.take(iter.index() + 1));
    }
    assert(text@.take(text@.len() as int) =~= text@);
    chars
}

/// The text of the characters from one place up to another.
pub fn from_chars(chars: &Vec<char>, from: usize, to: usize) -> (text: String)
    requires
        from <= to <= chars@.len(),
    ensures
        text@ == chars@.subrange(from as int, to as int),
{
    let mut text = String::new();
    let mut i: usize = from;
    while i < to
        invariant
            from <= i <= to <= chars@.len(),
            text@ == chars@.subrange(from as int, i as int),
        decreases to - i,
    {
        text.push(chars[i]);
        assert(text@ =~= chars@.subrange(from as int, i + 1));
        i = i + 1;
    }
    text
}

/// Decides whether two lists hold the same texts in the same order.
pub fn same_texts(a: &Vec<String>, b: &Vec<String>) -> (same: bool)
    ensures
        same == (texts(a@) == texts(b@)),
{
    if a.len() != b.len() {
        assert(texts(a@).len() != texts(b@).len());
        return false;
    }
    let mut i: usize = 0;
    while i < a.len()
        invariant
            i <= a.len(),
            a.len() == b.len(),
            forall|j: int| 0 <= j < i ==> (#[trigger] a@[j])@ == b@[j]@,
        decreases a.len() - i,
    {
        if a[i] != b[i] {
            assert(texts(a@)[i as int] != texts(b@)[i as int]);
            return false;
        }
        i = i + 1;
    }
    assert(texts(a@) =~= texts(b@));
    true
}

/// What is gathered is what is given for some number.
pub proof fn gathered<T>(n: nat, f: spec_fn(int) -> Seq<T>, item: T)
    ensures
        gather(n, f).contains(item) <==> exists|i: int| 0 <= i < n && (#[trigger] f(i)).contains(item),
    decreases n,
{
    if n > 0 {
        let last = n - 1;
        let before = gather(last as nat, f);
        let all = gather(n, f);
        gathered(last as nat, f, item);
        if all.contains(item) {
            let k = choose|k: int| 0 <= k < all.len() && all[k] == item;
            if k < before.len() {
                assert(before[k] == item);
            } else {
                assert(f(last)[k - before.len()] == item);
                assert(f(last).contains(item));
            }
        }
        if before.contains(item) {
            let k = choose|k: int| 0 <= k < before.len() && before[k] == item;
            assert(all[k] == item);
        }
        if f(last).contains(item) {
            let added = f(last);
            let k = choose|k: int| 0 <= k < added.len() && added[k] == item;
            assert(all[before.len() + k] == item);
        }
    }
}

/// The number that digits stand for, read from the most significant one on.
pub open spec fn read_digits(digits: Seq<char>) -> int
    decreases digits.len(),
{
    if digits.len() == 0 {
        0
    } else {
        read_digits(digits.drop_last()) * 10 + (digits.last() as int - '0' as int)
    }
}

/// Decimal digits stand for the number that they were made from, and start with
/// nought for nought alone.
proof fn decimal_reads_back(n: nat)
    ensures
        decimal(n).len() > 0,
        read_digits(decimal(n)) == n,
        forall|i: int| 0 <= i < decimal(n).len() ==> '0' <= #[trigger] decimal(n)[i] <= '9',
        decimal(n)[0] == '0' ==> n == 0,
    decreases n,
{
    if n < 10 {
        assert(decimal(n).drop_last() =~= Seq::<char>::empty());
        assert(decimal(n).last() == digit(n));
        assert(read_digits(decimal(n).drop_last()) == 0);
    } else {
        decimal_reads_back(n / 10);
        assert(decimal(n).drop_last() =~= decimal(n / 10));
        assert(decimal(n).last() == digit(n % 10));
        assert(decimal(n)[0] == decimal(n / 10)[0]);
        assert(n == n / 10 * 10 + n % 10);
    }
}

/// A number is written in digits that stand for it, with no nought in front.
pub proof fn numbers_read_back(n: u128, text: String)
    requires
        call_ensures(number, (n,), text),
    ensures
        read_digits(text@) == n,
        forall|i: int| 0 <= i < text@.len() ==> '0' <= #[trigger] text@[i] <= '9',
        text@.len() > 0,
        text@[0] == '0' ==> n == 0,
{
    decimal_reads_back(n as nat);
}

/// A further string is joined behind the others, with the separator before it
/// where it is not the first.
pub proof fn strings_are_joined_one_by_one(
    parts: &Vec<String>,
    more: &Vec<String>,
    separator: &str,
    text: String,
    longer: String,
)
    requires
        call_ensures(join, (parts, separator), text),
        call_ensures(join, (more, separator), longer),
        more@.len() == parts@.len() + 1,
        forall|i: int| 0 <= i < parts@.len() ==> (#[trigger] more@[i])@ == parts@[i]@,
    ensures
        parts@.len() == 0 ==> text@.len() == 0 && longer@ == more@.last()@,
        parts@.len() > 0 ==> longer@ == text@ + separator@ + more@.last()@,
{
    assert(texts(more@).drop_last() =~= texts(parts@));
    assert(texts(more@).last() == more@.last()@);
}

} // verus!
