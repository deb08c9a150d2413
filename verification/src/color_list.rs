//! Palettes as text: colors of six hexadecimal digits each, separated by commas.

use crate::color::Rgb;
use vstd::prelude::*;

verus! {

/// The byte that separates two colors of a list: a comma.
pub const SEPARATOR: u8 = 44;

/// A component of a color.
#[derive(Clone, Copy, Debug, PartialEq, Eq, Structural)]
pub enum Channel {
    Red,
    Green,
    Blue,
}

/// Why a text is no list of colors.
#[derive(Clone, Copy, Debug, PartialEq, Eq, Structural)]
pub enum ColorListError {
    /// The color at `index` does not have six bytes.
    WrongLength { index: usize },
    /// A color holds a byte that is no ASCII character.
    NonAscii,
    /// The two bytes for `channel` of the color at `index` are not both hexadecimal digits.
    InvalidComponent { index: usize, channel: Channel },
}

/// The value of the hexadecimal digit `b`, in either case.
pub open spec fn hex_value(b: u8) -> Option<u8> {
    if 48 <= b <= 57 {
        Some((b - 48) as u8)
    } else if 97 <= b <= 102 {
        Some((b - 87) as u8)
    } else if 65 <= b <= 70 {
        Some((b - 55) as u8)
    } else {
        None
    }
}

/// The value of the two hexadecimal digits `hi` and `lo`.
pub open spec fn component(hi: u8, lo: u8) -> Option<u8> {
    match (hex_value(hi), hex_value(lo)) {
        (Some(h), Some(l)) => Some((16 * h + l) as u8),
        _ => None,
    }
}

/// Every byte of `token` is an ASCII character.
pub open spec fn is_ascii(token: Seq<u8>) -> bool {
    forall|i: int| 0 <= i < token.len() ==> #[trigger] token[i] < 128
}

/// The color that `token`, the one at `index` of a list, stands for.
///
/// The length is looked at first, then whether all bytes are ASCII, then red, green and
/// blue in that order.
pub open spec fn parse_token(token: Seq<u8>, index: usize) -> Result<Rgb, ColorListError> {
    if token.len() != 6 {
        Err(ColorListError::WrongLength { index })
    } else if !is_ascii(token) {
        Err(ColorListError::NonAscii)
    } else {
        match component(token[0], token[1]) {
            None => Err(ColorListError::InvalidComponent { index, channel: Channel::Red }),
            Some(r) => match component(token[2], token[3]) {
                None => Err(ColorListError::InvalidComponent { index, channel: Channel::Green }),
                Some(g) => match component(token[4], token[5]) {
                    None => Err(
                        ColorListError::InvalidComponent { index, channel: Channel::Blue },
                    ),
                    Some(b) => Ok(Rgb { r, g, b }),
                },
            },
        }
    }
}

/// The pieces of `bytes` between its separators. A text without a separator is one
/// piece, and so is the empty text.
pub open spec fn tokens(bytes: Seq<u8>) -> Seq<Seq<u8>>
    decreases bytes.len(),
{
    if bytes.len() == 0 {
        seq![Seq::empty()]
    } else {
        let before = tokens(bytes.drop_last());
        if bytes.last() == SEPARATOR {
            before.push(Seq::empty())
        } else {
            before.update(before.len() - 1, before.last().push(bytes.last()))
        }
    }
}

/// The colors of the first `n` of `tokens`, or what is wrong with the first of them that
/// is no color.
pub open spec fn parse_tokens(tokens: Seq<Seq<u8>>, n: int) -> Result<Seq<Rgb>, ColorListError>
    decreases n,
{
    if n <= 0 {
        Ok(Seq::empty())
    } else {
        match parse_tokens(tokens, n - 1) {
            Err(e) => Err(e),
            Ok(colors) => match parse_token(tokens[n - 1], (n - 1) as usize) {
                Err(e) => Err(e),
                Ok(color) => Ok(colors.push(color)),
            },
        }
    }
}

/// The colors that `bytes` lists, or what is wrong with the first piece that is no color.
pub open spec fn parse_color_list_spec(bytes: Seq<u8>) -> Result<Seq<Rgb>, ColorListError> {
    parse_tokens(tokens(bytes), tokens(bytes).len() as int)
}

/// There is one piece more than there are separators, and at least one.
pub proof fn lemma_tokens_len(bytes: Seq<u8>)
    ensures
        1 <= tokens(bytes).len() <= bytes.len() + 1,
    decreases bytes.len(),
{
    if bytes.len() > 0 {
        lemma_tokens_len(bytes.drop_last());
    }
}

/// The pieces before the last one of a prefix are pieces of the whole text.
proof fn lemma_tokens_stable(bytes: Seq<u8>, p: int, q: int)
    requires
        0 <= p <= q <= bytes.len(),
    ensures
        tokens(bytes.take(p)).len() <= tokens(bytes.take(q)).len(),
        forall|i: int|
            0 <= i < tokens(bytes.take(p)).len() - 1 ==> #[trigger] tokens(bytes.take(q))[i]
                == tokens(bytes.take(p))[i],
    decreases q - p,
{
    if p < q {
        lemma_tokens_stable(bytes, p, q - 1);
        lemma_tokens_len(bytes.take(q - 1));
        lemma_tokens_len(bytes.take(p));
        assert(bytes.take(q).drop_last() =~= bytes.take(q - 1));
    }
}

/// What the first `n` pieces are read as depends on these pieces only.
proof fn lemma_parse_tokens_agree(x: Seq<Seq<u8>>, y: Seq<Seq<u8>>, n: int)
    requires
        forall|i: int| 0 <= i < n ==> #[trigger] x[i] == y[i],
    ensures
        parse_tokens(x, n) == parse_tokens(y, n),
    decreases n,
{
    if n > 0 {
        lemma_parse_tokens_agree(x, y, n - 1);
    }
}

/// Once a piece is no color, more pieces do not mend it.
proof fn lemma_parse_tokens_error(x: Seq<Seq<u8>>, n: int, m: int)
    requires
        0 <= n <= m,
        parse_tokens(x, n) is Err,
    ensures
        parse_tokens(x, m) == parse_tokens(x, n),
    decreases m - n,
{
    if n < m {
        lemma_parse_tokens_error(x, n, m - 1);
    }
}

/// The value of the hexadecimal digit `b`, in either case.
fn digit(b: u8) -> (r: Option<u8>)
    ensures
        r == hex_value(b),
        r matches Some(v) ==> v < 16,
{
    if 48 <= b && b <= 57 {
        Some(b - 48)
    } else if 97 <= b && b <= 102 {
        Some(b - 87)
    } else if 65 <= b && b <= 70 {
        Some(b - 55)
    } else {
        None
    }
}

/// The value of the two hexadecimal digits `hi` and `lo`.
fn two_digits(hi: u8, lo: u8) -> (r: Option<u8>)
    ensures
        r == component(hi, lo),
{
    match digit(hi) {
        Some(h) => match digit(lo) {
            Some(l) => Some(16 * h + l),
            None => None,
        },
        None => None,
    }
}

/// Reads the piece of `list` from `start` to `end` as the color at `index`.
fn read_token(list: &[u8], start: usize, end: usize, index: usize) -> (r: Result<
    Rgb,
    ColorListError,
>)
    requires
        start <= end <= list@.len(),
    ensures
        r == parse_token(list@.subrange(start as int, end as int), index),
{
    let ghost token = list@.subrange(start as int, end as int);
    if end - start != 6 {
        return Err(ColorListError::WrongLength { index });
    }
    let mut i: usize = start;
    while i < end
        invariant
            start <= i <= end <= list@.len(),
            end - start == 6,
            token == list@.subrange(start as int, end as int),
            forall|k: int| 0 <= k < i - start ==> #[trigger] token[k] < 128,
        decreases end - i,
    {
        if list[i] >= 128 {
            assert(token[i - start] >= 128);
            return Err(ColorListError::NonAscii);
        }
        i += 1;
    }
    assert(token[0] == list@[start as int]);
    assert(token[1] == list@[start + 1]);
    assert(token[2] == list@[start + 2]);
    assert(token[3] == list@[start + 3]);
    assert(token[4] == list@[start + 4]);
    assert(token[5] == list@[start + 5]);
    let r: u8 = match two_digits(list[start], list[start + 1]) {
        Some(v) => v,
        None => {
            return Err(ColorListError::InvalidComponent { index, channel: Channel::Red });
        },
    };
    let g: u8 = match two_digits(list[start + 2], list[start + 3]) {
        Some(v) => v,
        None => {
            return Err(ColorListError::InvalidComponent { index, channel: Channel::Green });
        },
    };
    let b: u8 = match two_digits(list[start + 4], list[start + 5]) {
        Some(v) => v,
        None => {
            return Err(ColorListError::InvalidComponent { index, channel: Channel::Blue });
        },
    };
    Ok(Rgb { r, g, b })
}

/// Reads `list` as colors of six hexadecimal digits each, separated by commas.
///
/// The colors come in the order of the text. The first piece that is no color decides
/// the error: a piece that does not have six bytes is of the wrong length, one that holds
/// a byte beyond ASCII is not ASCII, and one with another byte than a hexadecimal digit
/// has an invalid component, the first of red, green and blue that holds such a byte.
pub fn parse_color_list(list: &[u8]) -> (r: Result<Vec<Rgb>, ColorListError>)
    ensures
        match r {
            Ok(colors) => parse_color_list_spec(list@) == Ok::<Seq<Rgb>, ColorListError>(colors@),
            Err(e) => parse_color_list_spec(list@) == Err::<Seq<Rgb>, ColorListError>(e),
        },
{
    let len: usize = list.len();
    let mut colors: Vec<Rgb> = Vec::new();
    let mut start: usize = 0;
    let mut p: usize = 0;
    proof {
        assert(list@.take(0) =~= Seq::<u8>::empty());
        assert(list@.subrange(0, 0) =~= Seq::<u8>::empty());
    }
    while p < len
        invariant
            start <= p <= len == list@.len(),
            colors@.len() <= p,
            tokens(list@.take(p as int)).len() == colors@.len() + 1,
            tokens(list@.take(p as int)).last() == list@.subrange(start as int, p as int),
            parse_tokens(tokens(list@.take(p as int)), colors@.len() as int) == Ok::<
                Seq<Rgb>,
                ColorListError,
            >(colors@),
        decreases len - p,
    {
        let ghost seen = tokens(list@.take(p as int));
        let ghost now = tokens(list@.take(p as int + 1));
        let ghost k = colors@.len() as int;
        proof {
            assert(list@.take(p as int + 1).drop_last() =~= list@.take(p as int));
            assert(list@.take(p as int + 1).last() == list@[p as int]);
        }
        if list[p] == SEPARATOR {
            let read = read_token(list, start, p, colors.len());
            proof {
                assert(now == seen.push(Seq::empty()));
                lemma_parse_tokens_agree(seen, now, k + 1);
            }
            match read {
                Ok(color) => {
                    colors.push(color);
                },
                Err(e) => {
                    proof {
                        let all = tokens(list@);
                        assert(list@.take(len as int) =~= list@);
                        lemma_tokens_stable(list@, p as int + 1, len as int);
                        lemma_parse_tokens_agree(now, all, k + 1);
                        lemma_parse_tokens_error(all, k + 1, all.len() as int);
                    }
                    return Err(e);
                },
            }
            start = p + 1;
            proof {
                assert(list@.subrange(start as int, p as int + 1) =~= Seq::<u8>::empty());
            }
        } else {
            proof {
                assert(now == seen.update(k, seen.last().push(list@[p as int])));
                lemma_parse_tokens_agree(seen, now, k);
                assert(list@.subrange(start as int, p as int + 1) =~= list@.subrange(
                    start as int,
                    p as int,
                ).push(list@[p as int]));
            }
        }
        p += 1;
    }
    proof {
        assert(list@.take(len as int) =~= list@);
    }
    match read_token(list, start, len, colors.len()) {
        Ok(color) => {
            colors.push(color);
            Ok(colors)
        },
        Err(e) => Err(e),
    }
}

/// The hexadecimal digit of the value `v`, a capital letter where `upper` is set.
pub open spec fn hex_digit(v: u8, upper: bool) -> u8 {
    if v < 10 {
        (48 + v) as u8
    } else if upper {
        (55 + v) as u8
    } else {
        (87 + v) as u8
    }
}

/// The six hexadecimal digits of `color`: two for red, two for green, two for blue.
pub open spec fn format_color_spec(color: Rgb, upper: bool) -> Seq<u8> {
    seq![
        hex_digit(color.r / 16, upper),
        hex_digit(color.r % 16, upper),
        hex_digit(color.g / 16, upper),
        hex_digit(color.g % 16, upper),
        hex_digit(color.b / 16, upper),
        hex_digit(color.b % 16, upper),
    ]
}

/// The text that lists `colors`: six small hexadecimal digits for each, with a separator
/// between two colors.
pub open spec fn format_color_list_spec(colors: Seq<Rgb>) -> Seq<u8>
    decreases colors.len(),
{
    if colors.len() == 0 {
        Seq::empty()
    } else if colors.len() == 1 {
        format_color_spec(colors[0], false)
    } else {
        format_color_list_spec(colors.drop_last()).push(SEPARATOR) + format_color_spec(
            colors.last(),
            false,
        )
    }
}

/// The hexadecimal digit of the value `v`, a capital letter where `upper` is set.
fn digit_of(v: u8, upper: bool) -> (d: u8)
    requires
        v < 16,
    ensures
        d == hex_digit(v, upper),
{
    if v < 10 {
        48 + v
    } else if upper {
        55 + v
    } else {
        87 + v
    }
}

/// Appends the six hexadecimal digits of `color` to `text`.
fn push_color(text: &mut Vec<u8>, color: Rgb, upper: bool)
    ensures
        final(text)@ == old(text)@ + format_color_spec(color, upper),
{
    text.push(digit_of(color.r / 16, upper));
    text.push(digit_of(color.r % 16, upper));
    text.push(digit_of(color.g / 16, upper));
    text.push(digit_of(color.g % 16, upper));
    text.push(digit_of(color.b / 16, upper));
    text.push(digit_of(color.b % 16, upper));
    assert(text@ =~= old(text)@ + format_color_spec(color, upper));
}

/// The six hexadecimal digits of `color`, with capital letters where `upper` is set.
pub fn format_color(color: Rgb, upper: bool) -> (text: Vec<u8>)
    ensures
        text@ == format_color_spec(color, upper),
{
    let mut text: Vec<u8> = Vec::new();
    push_color(&mut text, color, upper);
    assert(Seq::<u8>::empty() + format_color_spec(color, upper) =~= format_color_spec(
        color,
        upper,
    ));
    text
}

/// The text that lists `colors`: six small hexadecimal digits for each, with a comma
/// between two colors.
pub fn format_color_list(colors: &[Rgb]) -> (text: Vec<u8>)
    ensures
        text@ == format_color_list_spec(colors@),
{
    let mut text: Vec<u8> = Vec::new();
    let mut i: usize = 0;
    proof {
        assert(colors@.take(0) =~= Seq::<Rgb>::empty());
    }
    while i < colors.len()
        invariant
            i <= colors@.len(),
            text@ == format_color_list_spec(colors@.take(i as int)),
        decreases colors@.len() - i,
    {
        let ghost before = text@;
        if i > 0 {
            text.push(SEPARATOR);
        }
        push_color(&mut text, colors[i], false);
        proof {
            let now = colors@.take(i as int + 1);
            assert(now.drop_last() =~= colors@.take(i as int));
            assert(now.last() == colors@[i as int]);
            if i == 0 {
                assert(now[0] == colors@[0]);
                assert(before + format_color_spec(colors@[0], false) =~= format_color_spec(
                    colors@[0],
                    false,
                ));
            }
        }
        i += 1;
    }
    proof {
        assert(colors@.take(colors@.len() as int) =~= colors@);
    }
    text
}

/// No byte of `text` is the separator.
pub open spec fn separator_free(text: Seq<u8>) -> bool {
    forall|i: int| 0 <= i < text.len() ==> #[trigger] text[i] != SEPARATOR
}

/// Text without a separator, put behind other text, goes to the last piece.
proof fn lemma_tokens_append(text: Seq<u8>, more: Seq<u8>)
    requires
        separator_free(more),
    ensures
        tokens(text + more) == tokens(text).update(
            tokens(text).len() - 1,
            tokens(text).last() + more,
        ),
    decreases more.len(),
{
    lemma_tokens_len(text);
    if more.len() == 0 {
        assert(text + more =~= text);
        assert(tokens(text).last() + more =~= tokens(text).last());
        assert(tokens(text).update(tokens(text).len() - 1, tokens(text).last()) =~= tokens(
            text,
        ));
    } else {
        let head = more.drop_last();
        assert(separator_free(head)) by {
            assert forall|i: int| 0 <= i < head.len() implies #[trigger] head[i]
                != SEPARATOR by {
                assert(more[i] != SEPARATOR);
            }
        }
        lemma_tokens_append(text, head);
        assert((text + more).drop_last() =~= text + head);
        assert((text + more).last() == more.last());
        assert(more[more.len() - 1] != SEPARATOR);
        let before = tokens(text + head);
        assert(before.last().push(more.last()) =~= tokens(text).last() + more);
        assert(before.update(before.len() - 1, before.last().push(more.last())) =~= tokens(
            text,
        ).update(tokens(text).len() - 1, tokens(text).last() + more));
    }
}

/// The digits of a color are read as that color, wherever the color stands in a list.
pub proof fn lemma_color_round_trip(color: Rgb, upper: bool, index: usize)
    ensures
        parse_token(format_color_spec(color, upper), index) == Ok::<Rgb, ColorListError>(color),
        separator_free(format_color_spec(color, upper)),
{
    let text = format_color_spec(color, upper);
    assert(text.len() == 6);
    assert(is_ascii(text));
    assert(component(text[0], text[1]) == Some(color.r));
    assert(component(text[2], text[3]) == Some(color.g));
    assert(component(text[4], text[5]) == Some(color.b));
}

/// The pieces of the text that lists `colors` are the digits of the colors.
proof fn lemma_tokens_of_list(colors: Seq<Rgb>)
    requires
        colors.len() > 0,
    ensures
        tokens(format_color_list_spec(colors)) == Seq::new(
            colors.len(),
            |i: int| format_color_spec(colors[i], false),
        ),
    decreases colors.len(),
{
    let want = Seq::new(colors.len(), |i: int| format_color_spec(colors[i], false));
    let last = format_color_spec(colors.last(), false);
    lemma_color_round_trip(colors.last(), false, 0);
    let empty = Seq::<u8>::empty();
    if colors.len() == 1 {
        lemma_tokens_append(empty, last);
        assert(empty + last =~= last);
        assert(tokens(empty) =~= seq![empty]);
        assert(tokens(last) =~= want);
    } else {
        let head = colors.drop_last();
        lemma_tokens_of_list(head);
        let text = format_color_list_spec(head);
        let cut = text.push(SEPARATOR);
        assert(cut.drop_last() =~= text);
        assert(tokens(cut) == tokens(text).push(empty));
        lemma_tokens_append(cut, last);
        assert(empty + last =~= last);
        assert(tokens(cut + last) =~= want);
    }
}

/// A list of colors that is written as text and read again is the same list.
pub proof fn lemma_list_round_trip(colors: Seq<Rgb>)
    requires
        colors.len() > 0,
    ensures
        parse_color_list_spec(format_color_list_spec(colors)) == Ok::<
            Seq<Rgb>,
            ColorListError,
        >(colors),
{
    lemma_tokens_of_list(colors);
    let pieces = tokens(format_color_list_spec(colors));
    lemma_parse_pieces(colors, pieces, colors.len() as int);
    assert(colors.take(colors.len() as int) =~= colors);
}

/// Where the pieces are the digits of `colors`, the first `n` of them are read as the
/// first `n` colors.
proof fn lemma_parse_pieces(colors: Seq<Rgb>, pieces: Seq<Seq<u8>>, n: int)
    requires
        0 <= n <= colors.len(),
        pieces == Seq::new(colors.len(), |i: int| format_color_spec(colors[i], false)),
    ensures
        parse_tokens(pieces, n) == Ok::<Seq<Rgb>, ColorListError>(colors.take(n)),
    decreases n,
{
    if n > 0 {
        lemma_parse_pieces(colors, pieces, n - 1);
        lemma_color_round_trip(colors[n - 1], false, (n - 1) as usize);
        assert(colors.take(n - 1).push(colors[n - 1]) =~= colors.take(n));
    } else {
        assert(colors.take(0) =~= Seq::<Rgb>::empty());
    }
}

} // verus!
