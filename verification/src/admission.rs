//! The admission-chain loop-prevention header.
//!
//! The header is client-controlled, so its value is honoured only for a
//! caller that holds [`Capability::SkipAdmissionChain`].

use vstd::prelude::*;
use vstd::string::*;

use crate::authz::{AuthLevel, Capability};
use crate::text;

verus! {

/// Canonical name of the admission-chain loop-prevention header.
pub const SKIP_ADMISSION_CHAIN_HEADER: &'static str = "x-memory-skip-admission-chain";

/// The entries among comma-separated pieces: trimmed, empty ones dropped.
pub open spec fn entries_of(pieces: Seq<Seq<char>>) -> Seq<Seq<char>> {
    pieces.map_values(|piece: Seq<char>| text::trimmed(piece)).filter(
        |entry: Seq<char>| entry.len() > 0,
    )
}

/// The webhook names that a header value lists; none if there is no header.
pub open spec fn skip_list(raw: Option<Seq<char>>) -> Seq<Seq<char>> {
    match raw {
        Some(value) => entries_of(text::split(value, ',')),
        None => Seq::empty(),
    }
}

/// The same list for a tier that may use it; none for one that may not.
pub open spec fn honoured_skip_list(level: AuthLevel, raw: Option<Seq<char>>) -> Seq<Seq<char>> {
    if level.refusal(Capability::SkipAdmissionChain, true) is None {
        skip_list(raw)
    } else {
        Seq::empty()
    }
}

proof fn lemma_entries_push(pieces: Seq<Seq<char>>, piece: Seq<char>)
    ensures
        entries_of(pieces.push(piece)) == if text::trimmed(piece).len() > 0 {
            entries_of(pieces).push(text::trimmed(piece))
        } else {
            entries_of(pieces)
        },
{
    reveal(Seq::filter);
    let f = |p: Seq<char>| text::trimmed(p);
    let all = pieces.push(piece).map_values(f);
    assert(all.drop_last() =~= pieces.map_values(f));
    assert(all.last() == text::trimmed(piece));
}

/// Appends the trimmed `piece` to `entries`, unless it is empty.
fn keep_entry(entries: &mut Vec<String>, piece: &str)
    ensures
        final(entries).deep_view() == if text::trimmed(piece@).len() > 0 {
            old(entries).deep_view().push(text::trimmed(piece@))
        } else {
            old(entries).deep_view()
        },
{
    let token: &str = text::trim(piece);
    if !token.is_empty() {
        entries.push(token.to_owned());
        assert(entries.deep_view() =~= old(entries).deep_view().push(text::trimmed(piece@)));
    }
}

/// Parse the skip list from the raw header value: comma-separated webhook
/// names. Entries are trimmed and empty ones dropped, so `"a, ,b,"` lists `a`
/// and `b`; no header lists nothing.
#[must_use]
pub fn parse_skip_admission_chain(raw: Option<&str>) -> (r: Vec<String>)
    ensures
        r.deep_view() == skip_list(raw.deep_view()),
{
    let mut out: Vec<String> = Vec::new();
    let value: &str = match raw {
        Some(value) => value,
        None => {
            assert(out.deep_view() =~= Seq::<Seq<char>>::empty());
            return out;
        },
    };
    let chars: Vec<char> = text::chars_of(value);
    let n: usize = chars.len();
    let mut start: usize = 0;
    let mut i: usize = 0;
    let ghost mut done: Seq<Seq<char>> = Seq::empty();
    proof {
        reveal(Seq::filter);
        assert(entries_of(done) =~= Seq::empty());
        assert(out.deep_view() =~= Seq::empty());
        assert(value@.take(0) =~= Seq::empty());
        assert(value@.subrange(0, 0) =~= Seq::empty());
        assert(done.push(value@.subrange(0, 0)) =~= seq![Seq::<char>::empty()]);
    }
    while i < n
        invariant
            start <= i <= n == chars@.len(),
            chars@ == value@,
            out.deep_view() == entries_of(done),
            text::split(value@.take(i as int), ',') == done.push(
                value@.subrange(start as int, i as int),
            ),
        decreases n - i,
    {
        let ghost piece = value@.subrange(start as int, i as int);
        let ghost front = value@.take(i + 1);
        assert(front.drop_last() =~= value@.take(i as int));
        assert(front.last() == chars@[i as int]);
        if chars[i] == ',' {
            keep_entry(&mut out, value.substring_char(start, i));
            proof {
                lemma_entries_push(done, piece);
                done = done.push(piece);
                assert(value@.subrange(i + 1, i + 1) =~= Seq::empty());
            }
            start = i + 1;
        } else {
            proof {
                assert(done.push(piece).drop_last() =~= done);
                assert(piece.push(chars@[i as int]) =~= value@.subrange(start as int, i + 1));
            }
        }
        i = i + 1;
    }
    keep_entry(&mut out, value.substring_char(start, n));
    proof {
        lemma_entries_push(done, value@.subrange(start as int, n as int));
        assert(value@.take(n as int) =~= value@);
    }
    out
}

/// The same list, but honoured only for a caller that holds
/// [`Capability::SkipAdmissionChain`].
#[must_use]
pub fn skip_admission_chain_for(level: AuthLevel, raw: Option<&str>) -> (r: Vec<String>)
    ensures
        r.deep_view() == honoured_skip_list(level, raw.deep_view()),
{
    if level.authorize(Capability::SkipAdmissionChain, true).is_ok() {
        parse_skip_admission_chain(raw)
    } else {
        let none: Vec<String> = Vec::new();
        assert(none.deep_view() =~= Seq::<Seq<char>>::empty());
        none
    }
}

/// A name that can stand in the list: not empty, without white space around
/// it and without a comma.
pub open spec fn is_entry(name: Seq<char>) -> bool {
    &&& name.len() > 0
    &&& text::trimmed(name) == name
    &&& !name.contains(',')
}

proof fn lemma_entries_are_names(pieces: Seq<Seq<char>>)
    requires
        forall|i: int| 0 <= i < pieces.len() ==> !(#[trigger] pieces[i]).contains(','),
    ensures
        forall|i: int|
            0 <= i < entries_of(pieces).len() ==> is_entry(#[trigger] entries_of(pieces)[i]),
    decreases pieces.len(),
{
    if pieces.len() == 0 {
        reveal(Seq::filter);
    } else {
        let front = pieces.drop_last();
        let last = pieces.last();
        lemma_entries_are_names(front);
        assert(front.push(last) =~= pieces);
        lemma_entries_push(front, last);
        text::law_trimmed_idempotent(last);
        assert(!text::trimmed(last).contains(',')) by {
            if text::trimmed(last).contains(',') {
                text::law_trimmed_adds_nothing(last, ',');
            }
        }
    }
}

/// Every entry of a skip list is a name: not empty, trimmed, without a comma.
pub proof fn law_skip_list_holds_names(raw: Option<Seq<char>>)
    ensures
        forall|i: int| 0 <= i < skip_list(raw).len() ==> is_entry(#[trigger] skip_list(raw)[i]),
{
    if let Some(value) = raw {
        text::law_split_pieces_hold_no_separator(value, ',');
        lemma_entries_are_names(text::split(value, ','));
    }
}

proof fn lemma_entries_of_names(names: Seq<Seq<char>>)
    requires
        forall|i: int| 0 <= i < names.len() ==> is_entry(#[trigger] names[i]),
    ensures
        entries_of(names) == names,
    decreases names.len(),
{
    if names.len() == 0 {
        reveal(Seq::filter);
        assert(entries_of(names) =~= names);
    } else {
        let front = names.drop_last();
        lemma_entries_of_names(front);
        assert(front.push(names.last()) =~= names);
        lemma_entries_push(front, names.last());
    }
}

/// A header made by joining names with commas lists these names, in order.
pub proof fn law_joined_names_read_back(names: Seq<Seq<char>>)
    requires
        forall|i: int| 0 <= i < names.len() ==> is_entry(#[trigger] names[i]),
    ensures
        skip_list(Some(text::joined(names, ','))) == names,
{
    if names.len() == 0 {
        let blank = Seq::<char>::empty();
        text::lemma_trimmed_range(blank, 0, 0);
        assert(text::split(blank, ',') =~= Seq::<Seq<char>>::empty().push(blank));
        lemma_entries_push(Seq::empty(), blank);
        lemma_entries_of_names(names);
        assert(names =~= Seq::empty());
    } else {
        text::law_split_joined(names, ',');
        lemma_entries_of_names(names);
    }
}

/// A user of the store never skips a webhook by header; every other tier
/// skips all that the header lists.
pub proof fn law_store_users_never_skip(level: AuthLevel, raw: Option<Seq<char>>)
    ensures
        honoured_skip_list(AuthLevel::User, raw).len() == 0,
        level != AuthLevel::User ==> honoured_skip_list(level, raw) == skip_list(raw),
{
}

proof fn lemma_entries_of_two_lists(a: Seq<Seq<char>>, b: Seq<Seq<char>>)
    ensures
        entries_of(a + b) == entries_of(a) + entries_of(b),
    decreases b.len(),
{
    if b.len() == 0 {
        reveal(Seq::filter);
        assert(a + b =~= a);
        assert(entries_of(b) =~= Seq::empty());
        assert(entries_of(a) + entries_of(b) =~= entries_of(a));
    } else {
        let front = b.drop_last();
        lemma_entries_of_two_lists(a, front);
        assert(a + b =~= (a + front).push(b.last()));
        assert(front.push(b.last()) =~= b);
        lemma_entries_push(a + front, b.last());
        lemma_entries_push(front, b.last());
        assert(entries_of(a + b) =~= entries_of(a) + entries_of(b));
    }
}

/// A comma only separates: the list of a header is the list of what stands
/// before a comma, followed by the list of what stands behind it.
pub proof fn law_a_comma_only_separates(before: Seq<char>, behind: Seq<char>)
    ensures
        skip_list(Some(before.push(',') + behind)) == skip_list(Some(before)) + skip_list(
            Some(behind),
        ),
{
    text::law_split_on_both_sides(before, behind, ',');
    lemma_entries_of_two_lists(text::split(before, ','), text::split(behind, ','));
}

/// A header without a comma lists what is left of it without the white space
/// around it, and nothing if nothing is left; no header lists nothing.
pub proof fn law_white_space_around_a_name_is_dropped(
    left: Seq<char>,
    name: Seq<char>,
    right: Seq<char>,
)
    requires
        forall|i: int| 0 <= i < left.len() ==> text::is_white_space(#[trigger] left[i]),
        forall|i: int| 0 <= i < right.len() ==> text::is_white_space(#[trigger] right[i]),
        name.len() > 0 ==> !text::is_white_space(name[0]) && !text::is_white_space(name.last()),
        !name.contains(','),
    ensures
        skip_list(Some(left + name + right)) == if name.len() > 0 {
            seq![name]
        } else {
            Seq::empty()
        },
        skip_list(None) == Seq::<Seq<char>>::empty(),
{
    let value = left + name + right;
    assert(!value.contains(',')) by {
        if value.contains(',') {
            let k = choose|k: int| 0 <= k < value.len() && value[k] == ',';
            if k < left.len() {
                assert(left[k] == ',');
            } else if k < left.len() + name.len() {
                assert(name[k - left.len()] == ',');
            } else {
                assert(right[k - left.len() - name.len()] == ',');
            }
        }
    }
    text::law_split_without_separator(value, ',');
    text::law_trimming_undoes_padding(left, name, right);
    let none = Seq::<Seq<char>>::empty();
    lemma_entries_push(none, value);
    lemma_entries_of_names(none);
    assert(none.push(value) =~= seq![value]);
    assert(none.push(name) =~= seq![name]);
}

proof fn lemma_entries_of_trimmed(pieces: Seq<Seq<char>>)
    ensures
        entries_of(pieces) == entries_of(
            pieces.map_values(|piece: Seq<char>| text::trimmed(piece)),
        ),
    decreases pieces.len(),
{
    let f = |piece: Seq<char>| text::trimmed(piece);
    let cut = pieces.map_values(f);
    if pieces.len() == 0 {
        assert(cut =~= pieces);
    } else {
        let front = pieces.drop_last();
        lemma_entries_of_trimmed(front);
        assert(front.push(pieces.last()) =~= pieces);
        assert(cut =~= front.map_values(f).push(text::trimmed(pieces.last())));
        lemma_entries_push(front, pieces.last());
        lemma_entries_push(front.map_values(f), text::trimmed(pieces.last()));
        text::law_trimmed_idempotent(pieces.last());
    }
}

/// White space around the names of a header never changes its list: the
/// header with every piece between commas trimmed lists the same names.
pub proof fn law_white_space_never_changes_the_list(pieces: Seq<Seq<char>>)
    requires
        pieces.len() > 0,
        forall|i: int| 0 <= i < pieces.len() ==> !(#[trigger] pieces[i]).contains(','),
    ensures
        skip_list(Some(text::joined(pieces, ','))) == skip_list(
            Some(
                text::joined(pieces.map_values(|piece: Seq<char>| text::trimmed(piece)), ','),
            ),
        ),
{
    let cut = pieces.map_values(|piece: Seq<char>| text::trimmed(piece));
    assert forall|i: int| 0 <= i < cut.len() implies !(#[trigger] cut[i]).contains(',') by {
        if cut[i].contains(',') {
            text::law_trimmed_adds_nothing(pieces[i], ',');
        }
    }
    text::law_split_joined(pieces, ',');
    text::law_split_joined(cut, ',');
    lemma_entries_of_trimmed(pieces);
}

/// Every piece of a header between commas, the last one too, is listed without
/// the white space around it, unless nothing is left of it.
pub proof fn law_every_piece_is_listed(value: Seq<char>, i: int)
    requires
        0 <= i < text::split(value, ',').len(),
        text::trimmed(text::split(value, ',')[i]).len() > 0,
    ensures
        skip_list(Some(value)).contains(text::trimmed(text::split(value, ',')[i])),
{
    let pieces = text::split(value, ',');
    let before = pieces.take(i);
    let behind = pieces.skip(i + 1);
    assert(pieces =~= before.push(pieces[i]) + behind);
    lemma_entries_push(before, pieces[i]);
    lemma_entries_of_two_lists(before.push(pieces[i]), behind);
    let k = entries_of(before).len() as int;
    assert(skip_list(Some(value))[k] == text::trimmed(pieces[i]));
}

} // verus!
