//! Text: numbers, columns, parts of a path, and the order of names.
use crate::lexicographic::{
    compare, lemma_first_difference_decides, lemma_lex_total, lemma_lex_transitive, lex_lt, Comparison,
};
use vstd::multiset::Multiset;
use vstd::prelude::*;

verus! {

/// Returns whether two texts are the same.
pub fn same_text(a: &str, b: &str) -> (same: bool)
    ensures
        same == (a@ == b@),
{
    let len: usize = a.unicode_len();
    if len != b.unicode_len() {
        return false;
    }
    let mut i: usize = 0;
    while i < len
        invariant
            i <= len,
            a@.len() == len,
            b@.len() == len,
            forall|j: int| 0 <= j < i ==> a@[j] == b@[j],
        decreases len - i,
    {
        if a.get_char(i) != b.get_char(i) {
            return false;
        }
        i += 1;
    }
    assert(a@ =~= b@);
    true
}

/// The digit that stands for `d`.
pub open spec fn digit_char(d: int) -> char {
    if d == 0 {
        '0'
    } else if d == 1 {
        '1'
    } else if d == 2 {
        '2'
    } else if d == 3 {
        '3'
    } else if d == 4 {
        '4'
    } else if d == 5 {
        '5'
    } else if d == 6 {
        '6'
    } else if d == 7 {
        '7'
    } else if d == 8 {
        '8'
    } else {
        '9'
    }
}

/// A number in decimal digits.
pub open spec fn decimal_text(n: nat) -> Seq<char>
    decreases n,
{
    if n < 10 {
        seq![digit_char(n as int)]
    } else {
        decimal_text(n / 10).push(digit_char((n % 10) as int))
    }
}

fn digit(d: u64) -> (text: &'static str)
    requires
        d < 10,
    ensures
        text@ == seq![digit_char(d as int)],
{
    proof {
        reveal_strlit("0");
        reveal_strlit("1");
        reveal_strlit("2");
        reveal_strlit("3");
        reveal_strlit("4");
        reveal_strlit("5");
        reveal_strlit("6");
        reveal_strlit("7");
        reveal_strlit("8");
        reveal_strlit("9");
    }
    let text = match d {
        0 => "0",
        1 => "1",
        2 => "2",
        3 => "3",
        4 => "4",
        5 => "5",
        6 => "6",
        7 => "7",
        8 => "8",
        _ => "9",
    };
    assert(text@ =~= seq![digit_char(d as int)]);
    text
}

/// Returns a number in decimal digits.
pub fn decimal(n: u64) -> (text: String)
    ensures
        text@ == decimal_text(n as nat),
    decreases n,
{
    if n < 10 {
        return digit(n).to_owned();
    }
    let mut text = decimal(n / 10);
    text.append(digit(n % 10));
    assert(text@ =~= decimal_text(n as nat));
    text
}

/// `text` with as many spaces before it as it takes to fill a column.
pub open spec fn right_aligned(text: Seq<char>, width: nat) -> Seq<char> {
    if text.len() >= width {
        text
    } else {
        Seq::new((width - text.len()) as nat, |i: int| ' ') + text
    }
}

/// Returns a text with as many spaces before it as it takes to fill a column.
pub fn right_align(text: &str, width: usize) -> (aligned: String)
    ensures
        aligned@ == right_aligned(text@, width as nat),
{
    proof {
        reveal_strlit(" ");
    }
    let len: usize = text.unicode_len();
    let mut aligned = String::new();
    let mut i: usize = len;
    while i < width
        invariant
            len <= i,
            i <= width || i == len,
            aligned@ == Seq::new((i - len) as nat, |j: int| ' '),
            " "@ == seq![' '],
        decreases width - i,
    {
        aligned.append(" ");
        i += 1;
        assert(aligned@ =~= Seq::new((i - len) as nat, |j: int| ' '));
    }
    aligned.append(text);
    assert(aligned@ =~= right_aligned(text@, width as nat));
    aligned
}

/// How many characters of `path` come before the first slash.
pub open spec fn name_len(path: Seq<char>) -> nat
    decreases path.len(),
{
    if path.len() == 0 || path[0] == '/' {
        0
    } else {
        1 + name_len(path.skip(1))
    }
}

/// The names between the slashes of `path`; there are no empty ones.
pub open spec fn components(path: Seq<char>) -> Seq<Seq<char>>
    decreases path.len(),
{
    if path.len() == 0 {
        Seq::empty()
    } else if path[0] == '/' {
        components(path.skip(1))
    } else {
        let len = name_len(path) as int;
        if 0 < len <= path.len() {
            seq![path.take(len)] + components(path.skip(len))
        } else {
            Seq::empty()
        }
    }
}

proof fn lemma_name_len(path: Seq<char>, len: int)
    requires
        0 <= len <= path.len(),
        forall|i: int| 0 <= i < len ==> path[i] != '/',
        len == path.len() || path[len] == '/',
    ensures
        name_len(path) == len,
    decreases path.len(),
{
    if len > 0 {
        let rest = path.skip(1);
        assert forall|i: int| 0 <= i < len - 1 implies rest[i] != '/' by {
            assert(rest[i] == path[i + 1]);
        }
        lemma_name_len(rest, len - 1);
    }
}

/// What a vector of texts holds.
pub open spec fn texts(list: Seq<String>) -> Seq<Seq<char>> {
    list.map_values(|text: String| text@)
}

/// Returns the names between the slashes of a path.
pub fn path_components(path: &str) -> (names: Vec<String>)
    ensures
        texts(names@) == components(path@),
{
    let len: usize = path.unicode_len();
    let mut names: Vec<String> = Vec::new();
    let mut i: usize = 0;
    assert(path@.skip(0) =~= path@);
    assert(texts(names@) =~= Seq::empty());
    assert(texts(names@) + components(path@.skip(0)) =~= components(path@));
    while i < len
        invariant
            i <= len,
            len == path@.len(),
            texts(names@) + components(path@.skip(i as int)) == components(path@),
        decreases len - i,
    {
        let ghost rest = path@.skip(i as int);
        assert(rest[0] == path@[i as int]);
        if path.get_char(i) == '/' {
            assert(rest.skip(1) =~= path@.skip(i + 1));
            i += 1;
        } else {
            let start: usize = i;
            while i < len && path.get_char(i) != '/'
                invariant
                    start <= i <= len,
                    len == path@.len(),
                    forall|j: int| start <= j < i ==> path@[j] != '/',
                decreases len - i,
            {
                i += 1;
            }
            let name = path.substring_char(start, i).to_owned();
            let ghost before = names@;
            proof {
                let name_size = i - start;
                assert forall|j: int| 0 <= j < name_size implies rest[j] != '/' by {
                    assert(rest[j] == path@[start + j]);
                }
                assert(name_size < rest.len() ==> rest[name_size] == path@[i as int]);
                lemma_name_len(rest, name_size);
                assert(rest.take(name_size) =~= path@.subrange(start as int, i as int));
                assert(rest.skip(name_size) =~= path@.skip(i as int));
                assert(path@[start as int] != '/');
            }
            names.push(name);
            assert(texts(names@) =~= texts(before).push(path@.subrange(start as int, i as int)));
            assert(texts(names@) + components(path@.skip(i as int)) =~= texts(before) + components(
                rest,
            ));
        }
    }
    assert(components(path@.skip(i as int)) =~= Seq::empty());
    assert(texts(names@) =~= components(path@));
    names
}

/// No part of a path is empty, and none holds a slash.
pub proof fn lemma_components_are_names(path: Seq<char>, index: int)
    requires
        0 <= index < components(path).len(),
    ensures
        components(path)[index].len() > 0,
        !components(path)[index].contains('/'),
    decreases path.len(),
{
    if path[0] == '/' {
        lemma_components_are_names(path.skip(1), index);
    } else {
        lemma_no_slash(path);
        let len = name_len(path) as int;
        if index > 0 {
            lemma_components_are_names(path.skip(len), index - 1);
        } else {
            assert forall|i: int| 0 <= i < len implies path.take(len)[i] != '/' by {
                assert(path[i] != '/');
            }
        }
    }
}

proof fn lemma_no_slash(path: Seq<char>)
    ensures
        name_len(path) <= path.len(),
        forall|i: int| 0 <= i < name_len(path) ==> path[i] != '/',
    decreases path.len(),
{
    if path.len() > 0 && path[0] != '/' {
        lemma_no_slash(path.skip(1));
        assert forall|i: int| 0 <= i < name_len(path) implies path[i] != '/' by {
            if i > 0 {
                assert(path[i] == path.skip(1)[i - 1]);
            }
        }
    }
}

/// The code points of a text.
pub open spec fn code_points_of(text: Seq<char>) -> Seq<u64> {
    text.map_values(|c: char| c as u64)
}

/// `a` comes before `b` in the order of their code points.
pub open spec fn text_lt(a: Seq<char>, b: Seq<char>) -> bool {
    lex_lt(code_points_of(a), code_points_of(b))
}

/// No text comes before one that stands before it.
pub open spec fn is_sorted_texts(list: Seq<Seq<char>>) -> bool {
    forall|i: int, j: int| 0 <= i < j < list.len() ==> !text_lt(#[trigger] list[j], #[trigger] list[i])
}

fn code_points(text: &str) -> (points: Vec<u64>)
    ensures
        points@ == code_points_of(text@),
{
    let len: usize = text.unicode_len();
    let mut points: Vec<u64> = Vec::new();
    let mut i: usize = 0;
    while i < len
        invariant
            i <= len,
            len == text@.len(),
            points@ == code_points_of(text@.take(i as int)),
        decreases len - i,
    {
        points.push(text.get_char(i) as u64);
        i += 1;
        assert(points@ =~= code_points_of(text@.take(i as int)));
    }
    assert(text@.take(len as int) =~= text@);
    points
}

/// Returns whether `a` comes before `b`.
pub fn is_text_before(a: &str, b: &str) -> (before: bool)
    ensures
        before == text_lt(a@, b@),
{
    match compare(&code_points(a), &code_points(b)) {
        Comparison::Before => true,
        _ => false,
    }
}

proof fn lemma_not_before(a: Seq<char>, b: Seq<char>, c: Seq<char>)
    ensures
        !text_lt(b, a) && !text_lt(c, b) ==> !text_lt(c, a),
        text_lt(a, b) ==> !text_lt(b, a),
{
    lemma_lex_total(code_points_of(a), code_points_of(b));
    lemma_lex_total(code_points_of(b), code_points_of(c));
    lemma_lex_total(code_points_of(a), code_points_of(c));
    if !text_lt(b, a) && !text_lt(c, b) && text_lt(c, a) {
        if code_points_of(a) != code_points_of(b) {
            lemma_lex_transitive(code_points_of(c), code_points_of(a), code_points_of(b));
        }
    }
}

/// Returns the texts in order.
pub fn sort_texts(list: Vec<String>) -> (sorted: Vec<String>)
    ensures
        is_sorted_texts(texts(sorted@)),
        texts(sorted@).to_multiset() == texts(list@).to_multiset(),
{
    let mut rest = list;
    let mut sorted: Vec<String> = Vec::new();
    let ghost all = texts(list@).to_multiset();
    proof {
        broadcast use vstd::seq_lib::group_to_multiset_ensures;

        assert(texts(sorted@) =~= Seq::empty());
        assert(texts(sorted@).to_multiset() =~= Multiset::empty());
        assert(texts(rest@).to_multiset().add(texts(sorted@).to_multiset()) =~= all);
    }
    while rest.len() > 0
        invariant
            is_sorted_texts(texts(sorted@)),
            texts(rest@).to_multiset().add(texts(sorted@).to_multiset()) == all,
        decreases rest@.len(),
    {
        let ghost left = rest@;
        if let Some(text) = rest.pop() {
            let ghost before = sorted@;
            let len: usize = sorted.len();
            let mut at: usize = 0;
            while at < len && !is_text_before(text.as_str(), sorted[at].as_str())
                invariant
                    at <= len,
                    len == sorted@.len(),
                    sorted@ == before,
                    forall|i: int| 0 <= i < at ==> !text_lt(text@, #[trigger] sorted@[i]@),
                decreases len - at,
            {
                at += 1;
            }
            proof {
                lemma_insert_sorted(texts(before), at as int, text@);
                broadcast use vstd::seq_lib::group_to_multiset_ensures;

                assert(texts(left) =~= texts(rest@).push(text@));
                assert(texts(before.insert(at as int, text)) =~= texts(before).insert(
                    at as int,
                    text@,
                ));
                assert(texts(rest@).to_multiset().add(
                    texts(before).insert(at as int, text@).to_multiset(),
                ) =~= texts(left).to_multiset().add(texts(before).to_multiset()));
            }
            sorted.insert(at, text);
        }
    }
    proof {
        broadcast use vstd::seq_lib::group_to_multiset_ensures;

        assert(texts(rest@) =~= Seq::empty());
        assert(texts(rest@).to_multiset() =~= Multiset::empty());
        assert(texts(sorted@).to_multiset() =~= all);
    }
    sorted
}

proof fn lemma_insert_sorted(list: Seq<Seq<char>>, at: int, text: Seq<char>)
    requires
        is_sorted_texts(list),
        0 <= at <= list.len(),
        forall|i: int| 0 <= i < at ==> !text_lt(text, #[trigger] list[i]),
        at < list.len() ==> text_lt(text, list[at]),
    ensures
        is_sorted_texts(list.insert(at, text)),
{
    let longer = list.insert(at, text);
    assert forall|i: int, j: int| 0 <= i < j < longer.len() implies !text_lt(
        #[trigger] longer[j],
        #[trigger] longer[i],
    ) by {
        let a = if i < at {
            i
        } else {
            i - 1
        };
        let b = if j < at {
            j
        } else {
            j - 1
        };
        if i == at {
            assert(longer[j] == list[j - 1]);
            lemma_not_before(text, list[at], list[j - 1]);
            if at < j - 1 {
                assert(!text_lt(list[j - 1], list[at]));
            }
            lemma_lex_total(code_points_of(list[at]), code_points_of(list[at]));
        } else if j == at {
            assert(longer[i] == list[i]);
        } else {
            assert(longer[i] == list[a] && longer[j] == list[b]);
        }
    }
}

/// The number that some decimal digits stand for.
pub open spec fn decimal_value(text: Seq<char>) -> int
    decreases text.len(),
{
    if text.len() == 0 {
        0
    } else {
        10 * decimal_value(text.drop_last()) + (text.last() as int - '0' as int)
    }
}

/// A number can be read back from its decimal digits, of which the first is not zero unless it is the only one.
pub proof fn lemma_decimal_can_be_read_back(n: nat)
    ensures
        decimal_value(decimal_text(n)) == n,
        decimal_text(n).len() > 0,
        n > 0 ==> decimal_text(n)[0] != '0',
        forall|i: int|
            0 <= i < decimal_text(n).len() ==> '0' <= #[trigger] decimal_text(n)[i] <= '9',
    decreases n,
{
    let text = decimal_text(n);
    reveal_with_fuel(decimal_value, 2);
    if n >= 10 {
        lemma_decimal_can_be_read_back(n / 10);
        assert(text.drop_last() =~= decimal_text(n / 10));
    } else {
        assert(text.drop_last() =~= Seq::<char>::empty());
    }
}

/// A text is aligned by spaces before it, as many as are missing; none is cut off.
pub proof fn lemma_aligned_text_fills_its_column(text: Seq<char>, width: nat, index: int)
    requires
        0 <= index < right_aligned(text, width).len(),
    ensures
        ({
            let aligned = right_aligned(text, width);
            let start = aligned.len() - text.len();
            &&& aligned.len() >= text.len() && aligned.len() >= width
            &&& aligned.len() == text.len() || aligned.len() == width
            &&& index < start ==> aligned[index] == ' '
            &&& index >= start ==> aligned[index] == text[index - start]
        }),
{
}

/// The names of two paths that are joined by a slash are those of the first, followed by those of the second.
pub proof fn lemma_joined_paths_have_all_names(first: Seq<char>, second: Seq<char>)
    ensures
        components(first + seq!['/'] + second) == components(first) + components(second),
    decreases first.len(),
{
    let path = first + seq!['/'] + second;
    if first.len() == 0 {
        assert(path[0] == '/');
        assert(path.skip(1) =~= second);
        assert(components(first) + components(second) =~= components(second));
    } else if first[0] == '/' {
        assert(path[0] == '/');
        assert(path.skip(1) =~= first.skip(1) + seq!['/'] + second);
        lemma_joined_paths_have_all_names(first.skip(1), second);
    } else {
        lemma_no_slash(first);
        let len = name_len(first) as int;
        lemma_name_ends(first);
        assert(path[0] == first[0]);
        assert forall|i: int| 0 <= i < len implies path[i] != '/' by {
            assert(path[i] == first[i]);
        }
        if len < first.len() {
            assert(path[len] == first[len]);
        } else {
            assert(path[len] == '/');
        }
        lemma_name_len(path, len);
        assert(path.take(len) =~= first.take(len));
        assert(path.skip(len) =~= first.skip(len) + seq!['/'] + second);
        lemma_joined_paths_have_all_names(first.skip(len), second);
        assert(components(first) == seq![first.take(len)] + components(first.skip(len)));
        assert(components(path) == seq![path.take(len)] + components(path.skip(len)));
        assert(components(path) =~= components(first) + components(second));
    }
}

proof fn lemma_name_ends(path: Seq<char>)
    ensures
        path.len() > 0 && path[0] != '/' ==> name_len(path) > 0,
        name_len(path) <= path.len(),
        name_len(path) < path.len() ==> path[name_len(path) as int] == '/',
    decreases path.len(),
{
    if path.len() > 0 && path[0] != '/' {
        lemma_name_ends(path.skip(1));
    }
}

/// A path without slashes is one name, unless it is empty.
pub proof fn lemma_name_is_its_own_path(name: Seq<char>)
    requires
        !name.contains('/'),
    ensures
        components(name) == (if name.len() == 0 {
            Seq::<Seq<char>>::empty()
        } else {
            seq![name]
        }),
{
    if name.len() > 0 {
        assert forall|i: int| 0 <= i < name.len() implies name[i] != '/' by {
            assert(name.contains(name[i]));
        }
        lemma_name_len(name, name.len() as int);
        assert(name.take(name.len() as int) =~= name);
        assert(name.skip(name.len() as int) =~= Seq::<char>::empty());
        assert(components(name.skip(name.len() as int)) =~= Seq::<Seq<char>>::empty());
        assert(components(name) =~= seq![name]);
    }
}

/// Texts are in the order of the first characters in which they differ, and one comes after its own beginning.
pub proof fn lemma_first_different_character_decides(
    common: Seq<char>,
    low: char,
    high: char,
    rest: Seq<char>,
    other_rest: Seq<char>,
)
    ensures
        low < high ==> text_lt(common + seq![low] + rest, common + seq![high] + other_rest),
        text_lt(common, common + seq![low] + rest),
        !text_lt(common + seq![low] + rest, common),
{
    let points = code_points_of(common);
    lemma_first_difference_decides(
        points,
        low as u64,
        high as u64,
        code_points_of(rest),
        code_points_of(other_rest),
    );
    assert(code_points_of(common + seq![low] + rest) =~= points + seq![low as u64] + code_points_of(rest));
    assert(code_points_of(common + seq![high] + other_rest) =~= points + seq![high as u64]
        + code_points_of(other_rest));
}

proof fn lemma_code_points_differ(a: char, b: char)
    ensures
        a != b ==> a as u64 != b as u64,
{
}

/// Of two different texts exactly one comes before the other.
pub proof fn lemma_texts_are_in_order(a: Seq<char>, b: Seq<char>)
    ensures
        !text_lt(a, a),
        a != b ==> (text_lt(a, b) <==> !text_lt(b, a)),
{
    lemma_lex_total(code_points_of(a), code_points_of(b));
    lemma_lex_total(code_points_of(a), code_points_of(a));
    if code_points_of(a) == code_points_of(b) {
        assert(a.len() == b.len()) by {
            assert(code_points_of(a).len() == code_points_of(b).len());
        }
        assert forall|i: int| 0 <= i < a.len() implies a[i] == b[i] by {
            assert(code_points_of(a)[i] == a[i] as u64);
            assert(code_points_of(b)[i] == b[i] as u64);
            lemma_code_points_differ(a[i], b[i]);
        }
        assert(a =~= b);
    }
}

} // verus!
