//! Text: numbers in decimal, lists, and text without its spaces.
use vstd::prelude::*;
use vstd::string::StrSliceExecFns;
use vstd::string::StringExecFns;

verus! {

/// A decimal digit.
pub open spec fn digit(d: nat) -> char {
    (48 + d) as char
}

/// A number in decimal, without leading zeros.
pub open spec fn decimal(n: nat) -> Seq<char>
    decreases n,
{
    if n < 10 {
        seq![digit(n)]
    } else {
        decimal(n / 10).push(digit(n % 10))
    }
}

/// A number is determined by its decimal text.
pub proof fn law_decimal_injective(m: nat, n: nat)
    requires
        decimal(m) == decimal(n),
    ensures
        m == n,
    decreases m,
{
    lemma_decimal_len(m / 10);
    lemma_decimal_len(n / 10);
    assert(decimal(m).last() == decimal(n).last());
    assert(decimal(m).last() == digit(m % 10));
    assert(decimal(n).last() == digit(n % 10));
    if m >= 10 && n >= 10 {
        assert(decimal(m).drop_last() =~= decimal(m / 10));
        assert(decimal(n).drop_last() =~= decimal(n / 10));
        law_decimal_injective(m / 10, n / 10);
    }
}

/// The number that a text of decimal digits stands for.
pub open spec fn digits_value(s: Seq<char>) -> int
    decreases s.len(),
{
    if s.len() == 0 {
        0
    } else {
        digits_value(s.drop_last()) * 10 + (s.last() as int - '0' as int)
    }
}

/// A number in decimal is made of digits, stands for the number, and does not start with a
/// zero unless it is zero.
pub proof fn law_decimal_stands_for_number(n: nat)
    ensures
        digits_value(decimal(n)) == n,
        decimal(n).len() > 0,
        forall|i: int| 0 <= i < decimal(n).len() ==> '0' <= #[trigger] decimal(n)[i] <= '9',
        n > 0 ==> decimal(n)[0] != '0',
    decreases n,
{
    reveal_with_fuel(digits_value, 2);
    if n < 10 {
        assert(decimal(n).drop_last() =~= Seq::<char>::empty());
    } else {
        law_decimal_stands_for_number(n / 10);
        assert(decimal(n).drop_last() =~= decimal(n / 10));
    }
}

proof fn lemma_decimal_len(n: nat)
    ensures
        decimal(n).len() > 0,
    decreases n,
{
    if n >= 10 {
        lemma_decimal_len(n / 10);
    }
}

fn digit_text(d: usize) -> (r: &'static str)
    requires
        d < 10,
    ensures
        r@ == seq![digit(d as nat)],
{
    proof {
        reveal_strlit("0");
        reveal_strlit("1");
        reveal_strlit("2");
        reveal_strlit("3");
        reveal_strlit("4");
        reveal_strlit("5");
        reveal_strlit("6");
        reveal_strlit("7");
        reveal_strlit("8");
        reveal_strlit("9");
    }
    match d {
        0 => "0",
        1 => "1",
        2 => "2",
        3 => "3",
        4 => "4",
        5 => "5",
        6 => "6",
        7 => "7",
        8 => "8",
        _ => "9",
    }
}

/// Writes a number in decimal.
pub fn decimal_text(n: usize) -> (r: String)
    ensures
        r@ == decimal(n as nat),
    decreases n,
{
    if n < 10 {
        digit_text(n).to_owned()
    } else {
        let mut r: String = decimal_text(n / 10);
        r.append(digit_text(n % 10));
        assert(r@ =~= decimal((n / 10) as nat).push(digit((n % 10) as nat)));
        r
    }
}

/// The texts of strings.
pub open spec fn texts(items: Seq<String>) -> Seq<Seq<char>> {
    items.map_values(|s: String| s@)
}

/// Texts one after the other, with `separator` between them.
pub open spec fn separated(items: Seq<Seq<char>>, separator: Seq<char>) -> Seq<char>
    decreases items.len(),
{
    if items.len() == 0 {
        Seq::empty()
    } else if items.len() == 1 {
        items[0]
    } else {
        separated(items.drop_last(), separator) + separator + items.last()
    }
}

/// Texts one after the other, each followed by `end`.
pub open spec fn terminated(items: Seq<Seq<char>>, end: Seq<char>) -> Seq<char>
    decreases items.len(),
{
    if items.len() == 0 {
        Seq::empty()
    } else {
        terminated(items.drop_last(), end) + items.last() + end
    }
}

/// How many characters the first `i` texts take, each with `extra` more.
pub open spec fn place(items: Seq<Seq<char>>, extra: int, i: int) -> int
    decreases i,
{
    if i <= 0 {
        0
    } else {
        place(items, extra, i - 1) + items[i - 1].len() + extra
    }
}

/// Places count the same in the texts without the last one.
proof fn lemma_place_front(items: Seq<Seq<char>>, extra: int, i: int)
    requires
        0 <= i < items.len(),
    ensures
        place(items.drop_last(), extra, i) == place(items, extra, i),
    decreases i,
{
    if i > 0 {
        lemma_place_front(items, extra, i - 1);
    }
}

/// Places do not go back.
pub proof fn lemma_place_increases(items: Seq<Seq<char>>, extra: int, i: int, j: int)
    requires
        0 <= i <= j,
        extra >= 0,
    ensures
        0 <= place(items, extra, i) <= place(items, extra, j),
    decreases j,
{
    if i < j {
        lemma_place_increases(items, extra, i, j - 1);
    } else if j > 0 {
        lemma_place_increases(items, extra, j - 1, j - 1);
    }
}

/// Whether `piece` stands in `all` from `from` on.
pub open spec fn stands_at(all: Seq<char>, from: int, piece: Seq<char>) -> bool {
    &&& 0 <= from
    &&& from + piece.len() <= all.len()
    &&& all.subrange(from, from + piece.len()) == piece
}

/// What stands in a part stands in the whole.
pub proof fn lemma_stands_in_whole(
    before: Seq<char>,
    part: Seq<char>,
    after: Seq<char>,
    from: int,
    piece: Seq<char>,
)
    requires
        stands_at(part, from, piece),
    ensures
        stands_at(before + part + after, before.len() + from, piece),
{
    let all = before + part + after;
    let at = before.len() + from;
    assert(all.subrange(at, at + piece.len()) =~= part.subrange(from, from + piece.len()));
}

/// Whether text `i` stands in `all` behind the earlier ones, each of them followed by `end`,
/// and is followed by `end`.
pub open spec fn item_ended(
    all: Seq<char>,
    from: int,
    items: Seq<Seq<char>>,
    end: Seq<char>,
    i: int,
) -> bool {
    let at = from + place(items, end.len() as int, i);
    &&& stands_at(all, at, items[i])
    &&& stands_at(all, at + items[i].len(), end)
}

/// Whether text `i` stands in `all` behind the earlier ones, each of them followed by
/// `separator`, and is followed by `separator` where it is not the last.
pub open spec fn item_separated(
    all: Seq<char>,
    from: int,
    items: Seq<Seq<char>>,
    separator: Seq<char>,
    i: int,
) -> bool {
    let at = from + place(items, separator.len() as int, i);
    &&& stands_at(all, at, items[i])
    &&& i + 1 < items.len() ==> stands_at(all, at + items[i].len(), separator)
}

/// Texts that are each followed by `end` take the room of the texts and of one `end` for
/// each of them, one alone included; each stands behind the earlier ones, and `end` stands
/// behind it.
pub proof fn law_terminated_places(items: Seq<Seq<char>>, end: Seq<char>)
    ensures
        terminated(items, end).len() == place(items, end.len() as int, items.len() as int),
        forall|i: int|
            0 <= i < items.len() ==> #[trigger] item_ended(
                terminated(items, end),
                0,
                items,
                end,
                i,
            ),
    decreases items.len(),
{
    let e = end.len() as int;
    let all = terminated(items, end);
    if items.len() > 0 {
        let front = items.drop_last();
        let before = terminated(front, end);
        let n = front.len() as int;
        law_terminated_places(front, end);
        lemma_place_front(items, e, n);
        assert forall|i: int| 0 <= i < items.len() implies #[trigger] item_ended(
            all,
            0,
            items,
            end,
            i,
        ) by {
            let from = place(items, e, i);
            let to = from + items[i].len();
            lemma_place_increases(items, e, i, i);
            if i < n {
                lemma_place_front(items, e, i);
                assert(item_ended(before, 0, front, end, i));
                assert(all.subrange(from, to) =~= before.subrange(from, to));
                assert(all.subrange(to, to + e) =~= before.subrange(to, to + e));
            } else {
                assert(all.subrange(from, to) =~= items[i]);
                assert(all.subrange(to, to + e) =~= end);
            }
        }
    }
}

/// Texts with `separator` between them take the room of the texts and of one `separator`
/// fewer than there are texts; each stands behind the earlier ones, and `separator` stands
/// between it and the next.
pub proof fn law_separated_places(items: Seq<Seq<char>>, separator: Seq<char>)
    ensures
        items.len() == 0 ==> separated(items, separator).len() == 0,
        items.len() > 0 ==> separated(items, separator).len() + separator.len() == place(
            items,
            separator.len() as int,
            items.len() as int,
        ),
        forall|i: int|
            0 <= i < items.len() ==> #[trigger] item_separated(
                separated(items, separator),
                0,
                items,
                separator,
                i,
            ),
    decreases items.len(),
{
    let e = separator.len() as int;
    let all = separated(items, separator);
    if items.len() > 0 {
        let front = items.drop_last();
        let before = separated(front, separator);
        let n = front.len() as int;
        law_separated_places(front, separator);
        lemma_place_front(items, e, n);
        assert forall|i: int| 0 <= i < items.len() implies #[trigger] item_separated(
            all,
            0,
            items,
            separator,
            i,
        ) by {
            let from = place(items, e, i);
            let to = from + items[i].len();
            lemma_place_increases(items, e, i, i);
            if i < n {
                lemma_place_front(items, e, i);
                assert(item_separated(before, 0, front, separator, i));
                assert(all.subrange(from, to) =~= before.subrange(from, to));
                if i + 1 < n {
                    assert(all.subrange(to, to + e) =~= before.subrange(to, to + e));
                } else {
                    assert(place(front, e, n) == place(front, e, i) + front[i].len() + e);
                    assert(all.subrange(to, to + e) =~= separator);
                }
            } else {
                assert(all.subrange(from, to) =~= items[i]);
            }
        }
    }
}

/// Texts that are each followed by `end` are determined by where they stand: no other text of
/// that length has each of them behind the earlier ones and `end` behind each.
pub proof fn law_terminated_is_only(items: Seq<Seq<char>>, end: Seq<char>, all: Seq<char>)
    requires
        all.len() == place(items, end.len() as int, items.len() as int),
        forall|i: int| 0 <= i < items.len() ==> #[trigger] item_ended(all, 0, items, end, i),
    ensures
        all == terminated(items, end),
    decreases items.len(),
{
    let e = end.len() as int;
    if items.len() > 0 {
        let front = items.drop_last();
        let n = front.len() as int;
        let to = place(items, e, n);
        let before = all.take(to);
        lemma_place_front(items, e, n);
        lemma_place_increases(items, e, 0, n);
        assert forall|i: int| 0 <= i < n implies #[trigger] item_ended(
            before,
            0,
            front,
            end,
            i,
        ) by {
            let at = place(items, e, i);
            lemma_place_front(items, e, i);
            lemma_place_increases(items, e, i + 1, n);
            assert(item_ended(all, 0, items, end, i));
            assert(place(items, e, i + 1) == at + items[i].len() + e);
            let last = at + items[i].len();
            assert(before.subrange(at, last) =~= all.subrange(at, last));
            assert(before.subrange(last, last + e) =~= all.subrange(last, last + e));
        }
        law_terminated_is_only(front, end, before);
        assert(item_ended(all, 0, items, end, n));
        let mid = to + items[n].len();
        assert(all =~= all.take(to) + all.subrange(to, mid) + all.subrange(mid, mid + e));
    } else {
        assert(all =~= terminated(items, end));
    }
}

/// Texts with `separator` between them are determined by where they stand: no other text of
/// that length has each of them behind the earlier ones and `separator` between each and the
/// next.
pub proof fn law_separated_is_only(items: Seq<Seq<char>>, separator: Seq<char>, all: Seq<char>)
    requires
        items.len() == 0 ==> all.len() == 0,
        items.len() > 0 ==> all.len() + separator.len() == place(
            items,
            separator.len() as int,
            items.len() as int,
        ),
        forall|i: int|
            0 <= i < items.len() ==> #[trigger] item_separated(all, 0, items, separator, i),
    ensures
        all == separated(items, separator),
    decreases items.len(),
{
    let e = separator.len() as int;
    if items.len() > 1 {
        let front = items.drop_last();
        let n = front.len() as int;
        let to = place(items, e, n) - e;
        let before = all.take(to);
        lemma_place_front(items, e, n);
        lemma_place_increases(items, e, 0, n - 1);
        assert(place(items, e, n) == place(items, e, n - 1) + items[n - 1].len() + e);
        assert forall|i: int| 0 <= i < n implies #[trigger] item_separated(
            before,
            0,
            front,
            separator,
            i,
        ) by {
            let at = place(items, e, i);
            lemma_place_front(items, e, i);
            lemma_place_increases(items, e, i + 1, n);
            lemma_place_increases(items, e, 0, i);
            assert(item_separated(all, 0, items, separator, i));
            assert(place(items, e, i + 1) == at + items[i].len() + e);
            let last = at + items[i].len();
            assert(before.subrange(at, last) =~= all.subrange(at, last));
            if i + 1 < n {
                lemma_place_increases(items, e, i + 2, n);
                assert(place(items, e, i + 2) == place(items, e, i + 1) + items[i + 1].len() + e);
                assert(before.subrange(last, last + e) =~= all.subrange(last, last + e));
            }
        }
        law_separated_is_only(front, separator, before);
        assert(item_separated(all, 0, items, separator, n - 1));
        assert(item_separated(all, 0, items, separator, n));
        assert(all =~= all.take(to) + all.subrange(to, to + e) + all.subrange(
            to + e,
            to + e + items[n].len(),
        ));
    } else if items.len() == 1 {
        reveal_with_fuel(place, 2);
        assert(item_separated(all, 0, items, separator, 0));
        assert(all =~= all.subrange(0, items[0].len() as int));
    } else {
        assert(all =~= separated(items, separator));
    }
}

/// Writes texts with `separator` between them.
pub fn separate(items: &Vec<String>, separator: &str) -> (r: String)
    ensures
        r@ == separated(texts(items@), separator@),
{
    let mut r: String = String::new();
    let mut i: usize = 0;
    let ghost all = texts(items@);
    while i < items.len()
        invariant
            i <= items.len(),
            all == texts(items@),
            r@ == separated(all.take(i as int), separator@),
        decreases items.len() - i,
    {
        if i > 0 {
            r.append(separator);
        }
        r.append(items[i].as_str());
        i += 1;
        assert(all.take(i as int).drop_last() =~= all.take(i - 1));
        assert(r@ =~= separated(all.take(i as int), separator@));
    }
    assert(all.take(i as int) =~= all);
    r
}

/// Writes texts, each followed by `end`.
pub fn terminate(items: &Vec<String>, end: &str) -> (r: String)
    ensures
        r@ == terminated(texts(items@), end@),
{
    let mut r: String = String::new();
    let mut i: usize = 0;
    let ghost all = texts(items@);
    while i < items.len()
        invariant
            i <= items.len(),
            all == texts(items@),
            r@ == terminated(all.take(i as int), end@),
        decreases items.len() - i,
    {
        r.append(items[i].as_str());
        r.append(end);
        i += 1;
        assert(all.take(i as int).drop_last() =~= all.take(i - 1));
    }
    assert(all.take(i as int) =~= all);
    r
}

/// Text without its spaces.
pub open spec fn without_spaces(s: Seq<char>) -> Seq<char> {
    s.filter(|c: char| c != ' ')
}

/// Text without its spaces holds no space, and no character that the text does not hold.
pub proof fn lemma_without_spaces(s: Seq<char>)
    ensures
        forall|i: int|
            0 <= i < without_spaces(s).len() ==> (#[trigger] without_spaces(s)[i]) != ' '
                && s.contains(without_spaces(s)[i]),
    decreases s.len(),
{
    reveal(Seq::filter);
    if s.len() > 0 {
        let front = s.drop_last();
        lemma_without_spaces(front);
        assert(s[s.len() - 1] == s.last());
        assert forall|i: int| 0 <= i < without_spaces(s).len() implies (
        #[trigger] without_spaces(s)[i]) != ' ' && s.contains(without_spaces(s)[i]) by {
            if i < without_spaces(front).len() {
                let c = without_spaces(front)[i];
                assert(front.contains(c));
                let j = choose|j: int| 0 <= j < front.len() && front[j] == c;
                assert(s[j] == c);
            }
        }
    }
}

/// Removing spaces goes character by character: nothing comes of nothing, nothing of a space,
/// each other character of itself, and of two texts what comes of each.
pub proof fn law_spaces_are_removed(a: Seq<char>, b: Seq<char>, c: char)
    ensures
        without_spaces(Seq::empty()) == Seq::<char>::empty(),
        without_spaces(seq![c]) == if c == ' ' {
            Seq::<char>::empty()
        } else {
            seq![c]
        },
        without_spaces(a + b) == without_spaces(a) + without_spaces(b),
{
    reveal_with_fuel(Seq::filter, 2);
    Seq::<char>::filter_distributes_over_add(a, b, |c: char| c != ' ');
    assert(seq![c].drop_last() =~= Seq::<char>::empty());
    assert(without_spaces(seq![c]) =~= if c == ' ' {
        Seq::<char>::empty()
    } else {
        seq![c]
    });
}

/// Writes a text without its spaces.
pub fn remove_spaces(s: &str) -> (r: String)
    ensures
        r@ == without_spaces(s@),
{
    let mut r: String = String::new();
    let n: usize = s.unicode_len();
    let mut i: usize = 0;
    while i < n
        invariant
            i <= n,
            n == s@.len(),
            r@ == without_spaces(s@.take(i as int)),
        decreases n - i,
    {
        if s.get_char(i) != ' ' {
            r.append(s.substring_char(i, i + 1));
        }
        i += 1;
        proof {
            reveal(Seq::filter);
            assert(s@.take(i as int).drop_last() =~= s@.take(i - 1));
            assert(r@ =~= without_spaces(s@.take(i as int)));
        }
    }
    assert(s@.take(i as int) =~= s@);
    r
}

} // verus!
