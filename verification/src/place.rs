//! The words in which a fault in a JSON text is told: where it stands, and what was expected.

use vstd::prelude::*;
use vstd::string::*;

verus! {

/// The byte that ends a line.
pub const NEWLINE: u8 = 0x0a;

/// One of the ten decimal digits.
pub open spec fn digit(d: int) -> char {
    "0123456789"@[d]
}

/// A number in decimal digits.
pub open spec fn decimal(n: nat) -> Seq<char>
    decreases n,
{
    if n < 10 {
        seq![digit(n as int)]
    } else {
        decimal(n / 10).push(digit((n % 10) as int))
    }
}

/// How many lines end before a place in the bytes.
pub open spec fn lines_before(bytes: Seq<u8>, at: int) -> nat
    decreases at,
{
    if at <= 0 {
        0
    } else if bytes[at - 1] == NEWLINE {
        lines_before(bytes, at - 1) + 1
    } else {
        lines_before(bytes, at - 1)
    }
}

/// Where the line begins in which a place in the bytes stands.
pub open spec fn line_start(bytes: Seq<u8>, at: int) -> int
    decreases at,
{
    if at <= 0 {
        0
    } else if bytes[at - 1] == NEWLINE {
        at
    } else {
        line_start(bytes, at - 1)
    }
}

/// A place in the bytes in words. Lines are counted from 1, and the column is the number of
/// bytes of the line before the place.
pub open spec fn place(bytes: Seq<u8>, at: int) -> Seq<char> {
    " at line "@ + decimal(lines_before(bytes, at) + 1) + " column "@ + decimal(
        (at - line_start(bytes, at)) as nat,
    )
}

/// A text in which the last place of some words has other words.
pub open spec fn retold(text: Seq<char>, words: Seq<char>, others: Seq<char>) -> Seq<char>
    decreases text.len(),
{
    if text.len() < words.len() || text.len() == 0 {
        text
    } else if text.skip(text.len() - words.len()) == words {
        text.take(text.len() - words.len()) + others
    } else {
        retold(text.drop_last(), words, others).push(text.last())
    }
}

/// Appends a number in decimal digits.
fn push_decimal(text: &mut String, n: u128)
    ensures
        final(text)@ == old(text)@ + decimal(n as nat),
    decreases n,
{
    proof {
        reveal_strlit("0123456789");
    }
    if n >= 10 {
        push_decimal(text, n / 10);
    }
    text.push("0123456789".get_char((n % 10) as usize));
    assert(text@ =~= old(text)@ + decimal(n as nat));
}

/// Says a place in the bytes in words, behind some others.
pub(crate) fn located(words: &str, bytes: &[u8], at: usize) -> (text: String)
    requires
        at <= bytes@.len(),
    ensures
        text@ == words@ + place(bytes@, at as int),
{
    let mut line: u128 = 1;
    let mut start: usize = 0;
    let mut i: usize = 0;
    while i < at
        invariant
            0 <= start <= i <= at <= bytes@.len(),
            line == lines_before(bytes@, i as int) + 1,
            line <= i + 1,
            start == line_start(bytes@, i as int),
        decreases at - i,
    {
        if bytes[i] == NEWLINE {
            line += 1;
            start = i + 1;
        }
        i += 1;
    }
    let mut text = words.to_owned();
    text.append(" at line ");
    push_decimal(&mut text, line);
    text.append(" column ");
    push_decimal(&mut text, (at - start) as u128);
    assert(text@ =~= words@ + place(bytes@, at as int));
    text
}

/// The characters of a text.
fn characters(text: &str) -> (list: Vec<char>)
    ensures
        list@ == text@,
{
    let mut list: Vec<char> = Vec::new();
    for c in it: text.chars()
        invariant
            it.seq() == text@,
            list@ == text@.take(it.index() as int),
    {
        list.push(c);
        assert(list@ =~= text@.take(it.index() + 1));
    }
    assert(text@.take(text@.len() as int) =~= text@);
    list
}

/// Whether the words stand at that place among the characters.
fn stands_at(list: &Vec<char>, at: usize, words: &Vec<char>) -> (yes: bool)
    requires
        at + words@.len() <= list@.len(),
    ensures
        yes == (list@.subrange(at as int, at + words@.len()) == words@),
{
    let total: usize = list.len();
    for i in 0..words.len()
        invariant
            at + words@.len() <= list@.len() == total,
            list@.subrange(at as int, at + i) =~= words@.take(i as int),
    {
        if list[at + i] != words[i] {
            assert(list@.subrange(at as int, at + words@.len())[i as int] != words@[i as int]);
            return false;
        }
        assert(list@.subrange(at as int, at + i + 1) =~= list@.subrange(at as int, at + i).push(
            list@[at + i],
        ));
        assert(words@.take(i + 1) =~= words@.take(i as int).push(words@[i as int]));
    }
    assert(words@.take(words@.len() as int) =~= words@);
    true
}

/// Cutting off the end of a text at which the words do not stand.
proof fn retold_step(text: Seq<char>, end: int, words: Seq<char>, others: Seq<char>)
    requires
        0 < words.len() <= end <= text.len(),
        text.subrange(end - words.len(), end) != words,
    ensures
        retold(text.take(end), words, others) == retold(text.take(end - 1), words, others).push(
            text[end - 1],
        ),
{
    let head = text.take(end);
    assert(head.skip(end - words.len()) =~= text.subrange(end - words.len(), end));
    assert(head.drop_last() =~= text.take(end - 1));
}

/// Puts other words in the last place of some words.
pub(crate) fn retell(text: &str, words: &str, others: &str) -> (told: String)
    requires
        words@.len() > 0,
    ensures
        told@ == retold(text@, words@, others@),
{
    let list = characters(text);
    let wanted = characters(words);
    let mut end = list.len();
    assert(text@.take(end as int) =~= text@);
    assert(text@.skip(end as int) =~= Seq::empty());
    assert(retold(text@, words@, others@) =~= retold(text@.take(end as int), words@, others@)
        + text@.skip(end as int));
    while end >= wanted.len() && !stands_at(&list, end - wanted.len(), &wanted)
        invariant
            list@ == text@,
            wanted@ == words@,
            words@.len() > 0,
            end <= list@.len(),
            retold(text@, words@, others@) == retold(text@.take(end as int), words@, others@)
                + text@.skip(end as int),
        decreases end,
    {
        proof {
            retold_step(text@, end as int, words@, others@);
            assert(seq![text@[end - 1]] + text@.skip(end as int) =~= text@.skip(end - 1));
            assert(retold(text@, words@, others@) =~= retold(
                text@.take(end - 1),
                words@,
                others@,
            ) + text@.skip(end - 1));
        }
        end = end - 1;
    }
    let ghost head = text@.take(end as int);
    if end < wanted.len() {
        assert(retold(head, words@, others@) == head);
        assert(head + text@.skip(end as int) =~= text@);
        return text.to_owned();
    }
    let from = end - wanted.len();
    assert(head.skip(from as int) =~= text@.subrange(from as int, end as int));
    assert(head.take(from as int) =~= text@.take(from as int));
    let mut told = String::new();
    for i in 0..from
        invariant
            list@ == text@,
            from <= list@.len(),
            told@ == text@.take(i as int),
    {
        told.push(list[i]);
        assert(told@ =~= text@.take(i + 1));
    }
    told.append(others);
    assert(told@ == retold(head, words@, others@));
    for i in end..list.len()
        invariant
            list@ == text@,
            end <= list@.len(),
            told@ == retold(head, words@, others@) + text@.subrange(end as int, i as int),
    {
        told.push(list[i]);
        assert(text@.subrange(end as int, i + 1) =~= text@.subrange(end as int, i as int).push(
            text@[i as int],
        ));
        assert(told@ =~= retold(head, words@, others@) + text@.subrange(end as int, i + 1));
    }
    assert(text@.subrange(end as int, text@.len() as int) =~= text@.skip(end as int));
    told
}

/// The number that decimal digits spell.
pub open spec fn number(text: Seq<char>) -> int
    decreases text.len(),
{
    if text.len() == 0 {
        0
    } else {
        10 * number(text.drop_last()) + (text.last() as int - '0' as int)
    }
}

/// A number in decimal digits is digits only, spells that number, and has no zero in front.
pub proof fn decimal_spells_the_number(n: nat)
    ensures
        decimal(n).len() > 0,
        number(decimal(n)) == n,
        forall|i: int| 0 <= i < decimal(n).len() ==> '0' <= #[trigger] decimal(n)[i] <= '9',
        decimal(n)[0] == '0' ==> n == 0,
        n == 0 ==> decimal(n).len() == 1,
    decreases n,
{
    reveal_strlit("0123456789");
    if n < 10 {
        reveal_with_fuel(number, 2);
        assert(decimal(n).drop_last() =~= Seq::empty());
    } else {
        decimal_spells_the_number(n / 10);
        assert(decimal(n).drop_last() =~= decimal(n / 10));
    }
}

/// A place is told as one more than the ends of lines before it, and as the bytes between it
/// and the last of these, or the start.
pub proof fn place_tells_line_and_column(bytes: Seq<u8>, at: int, start: int)
    requires
        0 <= start <= at <= bytes.len(),
        start == 0 || bytes[start - 1] == 10,
        forall|i: int| start <= i < at ==> #[trigger] bytes[i] != 10,
    ensures
        place(bytes, at) == " at line "@ + decimal(
            bytes.take(at).filter(|b: u8| b == 10).len() + 1,
        ) + " column "@ + decimal((at - start) as nat),
{
    lines_are_counted(bytes, at);
    line_starts(bytes, at, start);
}

/// The lines before a place are counted by what ends them.
proof fn lines_are_counted(bytes: Seq<u8>, at: int)
    requires
        0 <= at <= bytes.len(),
    ensures
        lines_before(bytes, at) == bytes.take(at).filter(|b: u8| b == 10).len(),
    decreases at,
{
    reveal(Seq::filter);
    if at > 0 {
        lines_are_counted(bytes, at - 1);
        assert(bytes.take(at).drop_last() =~= bytes.take(at - 1));
    }
}

/// A line starts behind the last end of a line.
proof fn line_starts(bytes: Seq<u8>, at: int, start: int)
    requires
        0 <= start <= at <= bytes.len(),
        start == 0 || bytes[start - 1] == 10,
        forall|i: int| start <= i < at ==> #[trigger] bytes[i] != 10,
    ensures
        line_start(bytes, at) == start,
    decreases at,
{
    if at > start {
        line_starts(bytes, at - 1, start);
    }
}

/// Other words take the last place of some, and the rest of the text stays as it is.
pub proof fn last_words_are_retold(
    head: Seq<char>,
    words: Seq<char>,
    tail: Seq<char>,
    others: Seq<char>,
)
    requires
        words.len() > 0,
        forall|at: int|
            head.len() < at <= head.len() + tail.len() ==>
                #[trigger] (head + words + tail).subrange(
                at,
                at + words.len(),
            ) != words,
    ensures
        retold(head + words + tail, words, others) == head + others + tail,
    decreases tail.len(),
{
    let text = head + words + tail;
    if tail.len() == 0 {
        assert(text.skip(text.len() - words.len()) =~= words);
        assert(text.take(text.len() - words.len()) + others =~= head + others + tail);
    } else {
        let shorter = tail.drop_last();
        let rest = head + words + shorter;
        assert(text.drop_last() =~= rest);
        let end = (head.len() + tail.len()) as int;
        assert(text.skip(end) =~= text.subrange(end, end + words.len()));
        assert forall|at: int| head.len() < at <= head.len() + shorter.len() implies (
        #[trigger] rest.subrange(at, at + words.len())) != words by {
            assert(rest.subrange(at, at + words.len()) =~= text.subrange(at, at + words.len()));
        }
        last_words_are_retold(head, words, shorter, others);
        assert((head + others + shorter).push(tail.last()) =~= head + others + tail);
    }
}

/// A text in which some words do not stand is not retold.
pub proof fn other_texts_stay(text: Seq<char>, words: Seq<char>, others: Seq<char>)
    requires
        words.len() > 0,
        forall|at: int|
            0 <= at <= text.len() - words.len() ==> #[trigger] text.subrange(at, at + words.len())
                != words,
    ensures
        retold(text, words, others) == text,
    decreases text.len(),
{
    if text.len() >= words.len() {
        let rest = text.drop_last();
        let end = text.len() - words.len();
        assert(text.skip(end) =~= text.subrange(end, end + words.len()));
        assert forall|at: int| 0 <= at <= rest.len() - words.len() implies (
        #[trigger] rest.subrange(at, at + words.len())) != words by {
            assert(rest.subrange(at, at + words.len()) =~= text.subrange(at, at + words.len()));
        }
        other_texts_stay(rest, words, others);
        assert(rest.push(text.last()) =~= text);
    }
}

} // verus!
