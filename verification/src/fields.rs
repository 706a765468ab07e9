//! Splitting a byte string into the fields that a separator byte delimits.
//!
//! A domain is split on `.` into its labels, an IPv4 address on `.` into its
//! octets, and an IPv6 address on `:` into its groups.

use vstd::prelude::*;

verus! {

/// The fields of `s`, in order: the runs of bytes between one separator and
/// the next. There is one field more than there are separators, so a
/// separator at either end, or two side by side, give an empty field.
///
/// Read from the left, the empty string has one empty field, each separator
/// opens a new empty field, and every other byte is added to the last field.
pub open spec fn split(s: Seq<u8>, sep: u8) -> Seq<Seq<u8>>
    decreases s.len(),
{
    if s.len() == 0 {
        seq![Seq::<u8>::empty()]
    } else {
        let before = split(s.drop_last(), sep);
        if s.last() == sep {
            before.push(Seq::<u8>::empty())
        } else {
            before.update(before.len() - 1, before.last().push(s.last()))
        }
    }
}

/// The byte `b` stands twice side by side in `s`, at `at` and `at + 1`.
pub open spec fn pair_at(s: Seq<u8>, b: u8, at: int) -> bool {
    0 <= at && at + 1 < s.len() && s[at] == b && s[at + 1] == b
}

/// The number of bytes in all the fields together.
pub open spec fn total_len(fields: Seq<Seq<u8>>) -> nat
    decreases fields.len(),
{
    if fields.len() == 0 {
        0
    } else {
        total_len(fields.drop_last()) + fields.last().len()
    }
}

/// No byte of `s` is the separator.
pub open spec fn free_of(s: Seq<u8>, sep: u8) -> bool {
    forall|i: int| 0 <= i < s.len() ==> #[trigger] s[i] != sep
}

/// There is always at least one field.
pub proof fn lemma_split_nonempty(s: Seq<u8>, sep: u8)
    ensures
        split(s, sep).len() >= 1,
    decreases s.len(),
{
    if s.len() > 0 {
        lemma_split_nonempty(s.drop_last(), sep);
    }
}

/// A string without a separator is its own single field.
pub proof fn lemma_split_single(s: Seq<u8>, sep: u8)
    requires
        free_of(s, sep),
    ensures
        split(s, sep) == seq![s],
    decreases s.len(),
{
    if s.len() == 0 {
        assert(s == Seq::<u8>::empty());
    } else {
        let init = s.drop_last();
        assert forall|i: int| 0 <= i < init.len() implies #[trigger] init[i] != sep by {
            assert(init[i] == s[i]);
        }
        lemma_split_single(init, sep);
        assert(init.push(s.last()) == s);
        assert(split(s, sep) == seq![s]);
    }
}

/// The fields of `a`, a separator and `b` are the fields of `a` followed by
/// the fields of `b`.
pub proof fn lemma_split_join(a: Seq<u8>, b: Seq<u8>, sep: u8)
    ensures
        split(a + seq![sep] + b, sep) == split(a, sep) + split(b, sep),
    decreases b.len(),
{
    let s = a + seq![sep] + b;
    lemma_split_nonempty(a, sep);
    if b.len() == 0 {
        assert(s.drop_last() == a);
        assert(split(b, sep) == seq![Seq::<u8>::empty()]);
        assert(split(a, sep).push(Seq::<u8>::empty()) == split(a, sep) + seq![
            Seq::<u8>::empty(),
        ]);
    } else {
        let init = b.drop_last();
        assert(s.drop_last() == a + seq![sep] + init);
        assert(s.last() == b.last());
        lemma_split_join(a, init, sep);
        lemma_split_nonempty(init, sep);
        let fa = split(a, sep);
        let fi = split(init, sep);
        if b.last() == sep {
            assert((fa + fi).push(Seq::<u8>::empty()) == fa + fi.push(Seq::<u8>::empty()));
        } else {
            assert((fa + fi).update((fa + fi).len() - 1, (fa + fi).last().push(b.last())) == fa
                + fi.update(fi.len() - 1, fi.last().push(b.last())));
        }
    }
}

/// Where the first separator of `s` stands at `at`, the first field is what
/// stands before it, and the other fields are those of what follows it.
pub proof fn lemma_split_at_first(s: Seq<u8>, sep: u8, at: int)
    requires
        0 <= at < s.len(),
        s[at] == sep,
        free_of(s.take(at), sep),
    ensures
        split(s, sep) == seq![s.take(at)] + split(s.skip(at + 1), sep),
{
    assert(s == s.take(at) + seq![sep] + s.skip(at + 1));
    lemma_split_join(s.take(at), s.skip(at + 1), sep);
    lemma_split_single(s.take(at), sep);
}

/// Where `s` has no separator from `from` up to `to`, and `to` is its end or
/// holds a separator, the bytes between them are the first field of what
/// stands from `from` on.
pub proof fn lemma_split_next(s: Seq<u8>, sep: u8, from: int, to: int)
    requires
        0 <= from <= to <= s.len(),
        free_of(s.subrange(from, to), sep),
        to < s.len() ==> s[to] == sep,
    ensures
        to == s.len() ==> split(s.skip(from), sep) == seq![s.subrange(from, to)],
        to < s.len() ==> split(s.skip(from), sep) == seq![s.subrange(from, to)] + split(
            s.skip(to + 1),
            sep,
        ),
{
    let rest = s.skip(from);
    if to == s.len() {
        assert(rest == s.subrange(from, to));
        lemma_split_single(rest, sep);
    } else {
        assert(rest.take(to - from) == s.subrange(from, to));
        assert(rest.skip(to - from + 1) == s.skip(to + 1));
        lemma_split_at_first(rest, sep, to - from);
    }
}

/// A separator at the start gives an empty first field.
pub proof fn lemma_split_leading(s: Seq<u8>, sep: u8)
    requires
        s.len() > 0,
        s.first() == sep,
    ensures
        split(s, sep).first().len() == 0,
{
    assert(s.take(0) == Seq::<u8>::empty());
    lemma_split_at_first(s, sep, 0);
}

/// A separator at the end gives an empty last field.
pub proof fn lemma_split_trailing(s: Seq<u8>, sep: u8)
    requires
        s.len() > 0,
        s.last() == sep,
    ensures
        split(s, sep).last().len() == 0,
{
}

/// Two separators side by side, at `at` and `at + 1`, give an empty field
/// that is not the last: its index is the number of fields before `at`.
pub proof fn lemma_split_adjacent(s: Seq<u8>, sep: u8, at: int)
    requires
        pair_at(s, sep, at),
    ensures
        split(s.take(at), sep).len() < split(s, sep).len() - 1,
        split(s, sep)[split(s.take(at), sep).len() as int].len() == 0,
{
    let head = s.take(at);
    let rest = s.skip(at + 1);
    let tail = s.skip(at + 2);
    assert(s == head + seq![sep] + rest);
    lemma_split_join(head, rest, sep);
    assert(rest == Seq::<u8>::empty() + seq![sep] + tail);
    lemma_split_join(Seq::<u8>::empty(), tail, sep);
    lemma_split_nonempty(tail, sep);
    assert(split(Seq::<u8>::empty(), sep) == seq![Seq::<u8>::empty()]);
}

/// A string with two fields or more holds a separator.
pub proof fn lemma_split_has_separator(s: Seq<u8>, sep: u8)
    requires
        split(s, sep).len() >= 2,
    ensures
        s.contains(sep),
{
    if free_of(s, sep) {
        lemma_split_single(s, sep);
    }
    let i = choose|i: int| 0 <= i < s.len() && s[i] == sep;
    assert(s[i] == sep);
}

/// The bytes of the fields and the separators between them are the bytes of
/// `s`.
pub proof fn lemma_split_lengths(s: Seq<u8>, sep: u8)
    ensures
        s.len() + 1 == total_len(split(s, sep)) + split(s, sep).len(),
    decreases s.len(),
{
    let fields = split(s, sep);
    if s.len() == 0 {
        assert(total_len(fields.drop_last()) == 0);
    } else {
        let before = split(s.drop_last(), sep);
        lemma_split_lengths(s.drop_last(), sep);
        lemma_split_nonempty(s.drop_last(), sep);
        if s.last() == sep {
            assert(fields.drop_last() == before);
        } else {
            assert(fields.drop_last() == before.drop_last());
            assert(total_len(before) == total_len(before.drop_last()) + before.last().len());
        }
        assert(total_len(fields) == total_len(fields.drop_last()) + fields.last().len());
    }
}

/// Fields of at most `limit` bytes each have at most `limit` bytes a field
/// together.
pub proof fn lemma_total_len_bound(fields: Seq<Seq<u8>>, limit: nat)
    requires
        forall|j: int| 0 <= j < fields.len() ==> (#[trigger] fields[j]).len() <= limit,
    ensures
        total_len(fields) <= limit * fields.len(),
    decreases fields.len(),
{
    if fields.len() > 0 {
        let init = fields.drop_last();
        assert forall|j: int| 0 <= j < init.len() implies (#[trigger] init[j]).len() <= limit by {
            assert(init[j] == fields[j]);
        }
        lemma_total_len_bound(init, limit);
        assert(limit * fields.len() == limit * init.len() + limit) by (nonlinear_arith)
            requires
                fields.len() == init.len() + 1,
        ;
    } else {
        assert(limit * fields.len() == 0) by (nonlinear_arith)
            requires
                fields.len() == 0,
        ;
    }
}

/// Every byte of every field is a byte of `s`, and none is the separator.
pub proof fn lemma_field_bytes(s: Seq<u8>, sep: u8)
    ensures
        forall|j: int, k: int|
            0 <= j < split(s, sep).len() && 0 <= k < split(s, sep)[j].len() ==> s.contains(
                #[trigger] split(s, sep)[j][k],
            ) && split(s, sep)[j][k] != sep,
    decreases s.len(),
{
    if s.len() > 0 {
        let init = s.drop_last();
        lemma_field_bytes(init, sep);
        lemma_split_nonempty(init, sep);
        let before = split(init, sep);
        let fields = split(s, sep);
        assert forall|j: int, k: int|
            0 <= j < fields.len() && 0 <= k < fields[j].len() implies s.contains(
            #[trigger] fields[j][k],
        ) && fields[j][k] != sep by {
            if s.last() != sep && j == fields.len() - 1 && k == fields[j].len() - 1 {
                assert(s[s.len() - 1] == fields[j][k]);
            } else {
                assert(fields[j][k] == before[j][k]);
                let i = choose|i: int| 0 <= i < init.len() && init[i] == before[j][k];
                assert(s[i] == before[j][k]);
            }
        }
    }
}

/// Every byte of `s` but the separators is a byte of one of the fields.
pub proof fn lemma_source_bytes(s: Seq<u8>, sep: u8)
    ensures
        forall|i: int|
            0 <= i < s.len() && #[trigger] s[i] != sep ==> exists|j: int|
                0 <= j < split(s, sep).len() && (#[trigger] split(s, sep)[j]).contains(s[i]),
    decreases s.len(),
{
    if s.len() > 0 {
        let init = s.drop_last();
        lemma_source_bytes(init, sep);
        lemma_split_nonempty(init, sep);
        let before = split(init, sep);
        let fields = split(s, sep);
        assert forall|i: int| 0 <= i < s.len() && #[trigger] s[i] != sep implies exists|j: int|
            0 <= j < fields.len() && (#[trigger] fields[j]).contains(s[i]) by {
            if i == s.len() - 1 {
                let j = fields.len() - 1;
                assert(fields[j][fields[j].len() - 1] == s[i]);
                assert(fields[j].contains(s[i]));
            } else {
                assert(init[i] == s[i]);
                let j = choose|j: int|
                    0 <= j < before.len() && (#[trigger] before[j]).contains(s[i]);
                let k = choose|k: int| 0 <= k < before[j].len() && before[j][k] == s[i];
                assert(fields[j][k] == s[i]);
                assert(fields[j].contains(s[i]));
            }
        }
    }
}

/// No field is longer than `s`.
pub proof fn lemma_field_lengths(s: Seq<u8>, sep: u8)
    ensures
        forall|j: int|
            0 <= j < split(s, sep).len() ==> (#[trigger] split(s, sep)[j]).len() <= s.len(),
    decreases s.len(),
{
    if s.len() > 0 {
        lemma_field_lengths(s.drop_last(), sep);
        lemma_split_nonempty(s.drop_last(), sep);
    }
}

/// Where a byte other than the separator stands twice side by side in `s`,
/// it does so in one of the fields.
pub proof fn lemma_pair_in_field(s: Seq<u8>, sep: u8, b: u8, at: int)
    requires
        pair_at(s, b, at),
        b != sep,
    ensures
        exists|j: int, k: int|
            0 <= j < split(s, sep).len() && #[trigger] pair_at(split(s, sep)[j], b, k),
    decreases s.len(),
{
    let init = s.drop_last();
    let before = split(init, sep);
    let fields = split(s, sep);
    lemma_split_nonempty(init, sep);
    if at + 1 < s.len() - 1 {
        assert(pair_at(init, b, at));
        lemma_pair_in_field(init, sep, b, at);
        let (j, k) = choose|j: int, k: int|
            0 <= j < before.len() && #[trigger] pair_at(before[j], b, k);
        assert(pair_at(fields[j], b, k));
    } else {
        lemma_split_nonempty(init.drop_last(), sep);
        let open = split(init.drop_last(), sep).last();
        assert(init.last() == b);
        assert(before.last() == open.push(b));
        assert(fields.last() == open.push(b).push(b));
        assert(pair_at(fields[fields.len() - 1], b, open.len() as int));
    }
}

/// An empty field comes from a separator at either end of `s`, or from two
/// side by side; the empty string alone has an empty field without one.
pub proof fn lemma_empty_field(s: Seq<u8>, sep: u8, j: int)
    requires
        0 <= j < split(s, sep).len(),
        split(s, sep)[j].len() == 0,
        s.len() > 0,
    ensures
        s.first() == sep || s.last() == sep || exists|at: int| pair_at(s, sep, at),
{
    if j < split(s, sep).len() - 1 {
        lemma_empty_not_last(s, sep, j);
    } else {
        lemma_split_nonempty(s.drop_last(), sep);
    }
}

/// An empty field that is not the last comes from a separator at the start
/// of `s`, or from two side by side.
pub proof fn lemma_empty_not_last(s: Seq<u8>, sep: u8, j: int)
    requires
        0 <= j < split(s, sep).len() - 1,
        split(s, sep)[j].len() == 0,
    ensures
        s.len() > 0,
        s.first() == sep || exists|at: int| pair_at(s, sep, at),
    decreases s.len(),
{
    if s.len() > 0 {
        let init = s.drop_last();
        let before = split(init, sep);
        lemma_split_nonempty(init, sep);
        assert(before[j].len() == 0);
        if j < before.len() - 1 {
            lemma_empty_not_last(init, sep, j);
            assert(init.first() == s.first());
            if exists|at: int| pair_at(init, sep, at) {
                let at = choose|at: int| pair_at(init, sep, at);
                assert(pair_at(s, sep, at));
            }
        } else {
            assert(s.last() == sep);
            if init.len() > 0 {
                lemma_split_nonempty(init.drop_last(), sep);
                assert(init.last() == sep);
                assert(pair_at(s, sep, s.len() - 2));
            }
        }
    }
}

/// The end of the field that starts at `from`: the place of the next
/// separator, or the end of `bytes` where none follows.
pub(crate) fn field_end(bytes: &[u8], from: usize, sep: u8) -> (to: usize)
    requires
        from <= bytes@.len(),
    ensures
        from <= to <= bytes@.len(),
        free_of(bytes@.subrange(from as int, to as int), sep),
        to < bytes@.len() ==> bytes@[to as int] == sep,
{
    let mut to: usize = from;
    while to < bytes.len() && bytes[to] != sep
        invariant
            from <= to <= bytes@.len(),
            free_of(bytes@.subrange(from as int, to as int), sep),
        decreases bytes@.len() - to,
    {
        to += 1;
        assert forall|i: int| 0 <= i < to - from implies #[trigger] bytes@.subrange(
            from as int,
            to as int,
        )[i] != sep by {
            if i < to - from - 1 {
                assert(bytes@.subrange(from as int, to - 1)[i] == bytes@[from + i]);
            }
        }
    }
    to
}

} // verus!
