//! What reading gives back of what the text writer wrote.

use crate::bank::operations::{BalanceOpView, Status};
use crate::parser::from::txt::{
    count_char, spec_from_txt, spec_get_atr, spec_txt_block, spec_txt_walk,
};
use crate::parser::to::txt::{
    amount_field, from_field, is_skipped, spec_to_txt, spec_txt_record, status_word, to_field,
    txt_head, txt_tail, txt_users, type_word,
};
use crate::parser::errors::ParseFileError;
use crate::parser::OperationNameView;
use crate::text::{
    lemma_decimal_digits, lemma_decimal_round_trip, lemma_find_after_free,
    lemma_find_char_after, lemma_find_char_none, lemma_join_append,
    lemma_no_occurrence_alphabet, lemma_no_occurrence_concat, lemma_no_occurrence_join,
    lemma_no_occurrence_missing, lemma_no_occurrence_short, lemma_trim_plain,
    lemma_trim_space_first, no_occurrence, spec_decimal, spec_join, trim,
};
use vstd::prelude::*;
use vstd::utf8::encode_utf8;

verus! {

/// The number of `c` in `a + b` is the sum of both counts.
proof fn lemma_count_concat(a: Seq<char>, b: Seq<char>, c: char)
    ensures
        count_char(a + b, c) == count_char(a, c) + count_char(b, c),
    decreases b.len(),
{
    if b.len() == 0 {
        assert(a + b =~= a);
    } else {
        assert((a + b).drop_last() =~= a + b.drop_last());
        lemma_count_concat(a, b.drop_last(), c);
    }
}

/// A text without `c` counts none.
proof fn lemma_count_none(s: Seq<char>, c: char)
    requires
        !s.contains(c),
    ensures
        count_char(s, c) == 0,
    decreases s.len(),
{
    if s.len() > 0 {
        assert(s.drop_last().len() < s.len());
        assert(!s.drop_last().contains(c)) by {
            if s.drop_last().contains(c) {
                let k = choose|k: int| 0 <= k < s.drop_last().len() && s.drop_last()[k] == c;
                assert(s[k] == c);
            }
        }
        lemma_count_none(s.drop_last(), c);
    }
}

/// Whether every line is non-empty and holds no line break.
pub open spec fn proper_lines(lines: Seq<Seq<char>>) -> bool {
    forall|i: int| 0 <= i < lines.len() ==> (#[trigger] lines[i]).len() > 0 && !lines[i].contains('\n')
}

/// Lines joined by line breaks: one break fewer than lines, no blank line,
/// and no break at the end.
proof fn lemma_join_lines(lines: Seq<Seq<char>>)
    requires
        lines.len() > 0,
        proper_lines(lines),
    ensures
        spec_join(lines, '\n').len() > 0,
        spec_join(lines, '\n').last() != '\n',
        no_occurrence(spec_join(lines, '\n'), seq!['\n', '\n']),
        count_char(spec_join(lines, '\n'), '\n') + 1 == lines.len(),
    decreases lines.len(),
{
    let nn = seq!['\n', '\n'];
    let last = lines.last();
    assert(!last.contains('\n') && last.len() > 0);
    assert forall|i: int| 0 <= i < last.len() implies !nn.contains(#[trigger] last[i]) by {
        if nn.contains(last[i]) {
            let k = choose|k: int| 0 <= k < nn.len() && nn[k] == last[i];
            assert(last.contains('\n'));
        }
    }
    lemma_no_occurrence_alphabet(last, nn);
    lemma_count_none(last, '\n');
    if lines.len() == 1 {
    } else {
        let init = lines.drop_last();
        assert(proper_lines(init)) by {
            assert forall|i: int| 0 <= i < init.len() implies (#[trigger] init[i]).len() > 0 && !init[i].contains('\n') by {
                assert(init[i] == lines[i]);
            }
        }
        lemma_join_lines(init);
        let a = spec_join(init, '\n');
        lemma_no_occurrence_short(seq!['\n'], nn);
        assert(seq!['\n'][0] == '\n');
        assert(!nn.contains(a.last())) by {
            if nn.contains(a.last()) {
                let k = choose|k: int| 0 <= k < nn.len() && nn[k] == a.last();
            }
        }
        lemma_no_occurrence_concat(a, seq!['\n'], nn);
        assert(!nn.contains(last[0])) by {
            if nn.contains(last[0]) {
                let k = choose|k: int| 0 <= k < nn.len() && nn[k] == last[0];
                assert(last.contains('\n'));
            }
        }
        assert((a + seq!['\n'])[a.len() as int] == '\n');
        lemma_no_occurrence_concat(a + seq!['\n'], last, nn);
        assert(spec_join(lines, '\n') == a + seq!['\n'] + last);
        lemma_count_concat(a + seq!['\n'], last, '\n');
        lemma_count_concat(a, seq!['\n'], '\n');
        assert(seq!['\n'].drop_last() =~= Seq::<char>::empty());
        assert(count_char(Seq::<char>::empty(), '\n') == 0);
        assert(count_char(seq!['\n'], '\n') == 1);
        assert((a + seq!['\n'] + last).last() == last.last());
    }
}

/// Reading text that starts with a block and a blank line reads the block
/// and then the rest.
proof fn lemma_walk_block(b: Seq<char>, r: Seq<char>)
    requires
        b.len() > 0,
        b.last() != '\n',
        no_occurrence(b, seq!['\n', '\n']),
    ensures
        spec_txt_walk(b + seq!['\n', '\n'] + r) == match spec_txt_block(b) {
            Err(e) => Err(e),
            Ok(o) => match spec_txt_walk(r) {
                Ok(x) => Ok(seq![o] + x),
                Err(e) => Err(e),
            },
        },
{
    let nn = seq!['\n', '\n'];
    assert(!nn.contains(b.last())) by {
        if nn.contains(b.last()) {
            let k = choose|k: int| 0 <= k < nn.len() && nn[k] == b.last();
        }
    }
    lemma_find_after_free(b, nn, r);
    let c = b + nn + r;
    assert(c.subrange(0, b.len() as int) =~= b);
    assert(c.subrange(b.len() + 2 as int, c.len() as int) =~= r);
}

/// The value of the attribute `key` in lines joined by line breaks, when
/// line `m` reads `<key>: <v>` and no earlier line holds `key`.
proof fn lemma_get_atr_line(lines: Seq<Seq<char>>, m: int, key: Seq<char>, v: Seq<char>)
    requires
        1 <= m < lines.len(),
        lines[m] == key + seq![':', ' '] + v,
        key.len() > 0,
        !key.contains('\n'),
        !key.contains(':'),
        !v.contains('\n'),
        forall|j: int| 0 <= j < m ==> no_occurrence(#[trigger] lines[j], key),
    ensures
        spec_get_atr(spec_join(lines, '\n'), key) == Some(trim(v, false)),
{
    let pre_lines = lines.take(m);
    let post = lines.skip(m);
    assert(lines =~= pre_lines + post);
    lemma_join_append(pre_lines, post, '\n');
    assert forall|j: int| 0 <= j < pre_lines.len() implies no_occurrence(#[trigger] pre_lines[j], key) by {
        assert(pre_lines[j] == lines[j]);
    }
    lemma_no_occurrence_join(pre_lines, '\n', key);
    let a = spec_join(pre_lines, '\n');
    let pre = a + seq!['\n'];
    assert(!key.contains(seq!['\n'][0]));
    lemma_no_occurrence_alphabet(seq!['\n'], key);
    lemma_no_occurrence_concat(a, seq!['\n'], key);
    assert(pre.last() == '\n');
    let x = key + seq![':', ' '] + v;
    assert(!x.contains('\n')) by {
        if x.contains('\n') {
            let k = choose|k: int| 0 <= k < x.len() && x[k] == '\n';
            if k < key.len() {
                assert(key[k] == '\n');
            } else if k >= key.len() + 2 {
                assert(v[k - key.len() - 2] == '\n');
            }
        }
    }
    let rest: Seq<char> = if post.len() == 1 {
        seq![]
    } else {
        seq!['\n'] + spec_join(post.drop_first(), '\n')
    };
    if post.len() > 1 {
        assert(post =~= seq![post[0]] + post.drop_first());
        lemma_join_append(seq![post[0]], post.drop_first(), '\n');
    }
    assert(spec_join(post, '\n') =~= x + rest);
    let s = spec_join(lines, '\n');
    assert(s =~= pre + key + (seq![':', ' '] + v + rest));
    lemma_find_after_free(pre, key, seq![':', ' '] + v + rest);
    let st = pre.len() as int;
    let tail = s.subrange(st, s.len() as int);
    assert(tail =~= x + rest);
    if post.len() > 1 {
        lemma_find_char_after(x, spec_join(post.drop_first(), '\n'), '\n');
        assert(tail =~= x + seq!['\n'] + spec_join(post.drop_first(), '\n'));
    } else {
        assert(tail =~= x);
        lemma_find_char_none(x, '\n');
    }
    let line = s.subrange(st, st + x.len());
    assert(line =~= x);
    assert(x =~= key + seq![':'] + (seq![' '] + v));
    lemma_find_char_after(key, seq![' '] + v, ':');
    assert(line.subrange(key.len() + 1 as int, line.len() as int) =~= seq![' '] + v);
    lemma_trim_space_first(v);
}


/// The nine lines of the text block of the operation `o` numbered `index`.
pub open spec fn txt_lines(index: nat, o: OperationNameView) -> Seq<Seq<char>> {
    let t = type_word(o.0.tx_type);
    let sep = seq![':', ' '];
    seq![
        "# Record "@ + spec_decimal(index) + " ("@ + t + ")"@,
        "TX_ID"@ + sep + spec_decimal(o.0.id as nat),
        "TX_TYPE"@ + sep + t,
        "FROM_USER_ID"@ + sep + from_field(o),
        "TO_USER_ID"@ + sep + to_field(o),
        "AMOUNT"@ + sep + spec_decimal(amount_field(o.0.tx_type) as nat),
        "TIMESTAMP"@ + sep + spec_decimal(o.0.timestamp as nat),
        "STATUS"@ + sep + status_word(o.0.status),
        "DESCRIPTION"@ + sep + o.0.description,
    ]
}

/// Joining one more line of a list.
proof fn lemma_join_take(l: Seq<Seq<char>>, k: int)
    requires
        1 <= k < l.len(),
    ensures
        spec_join(l.take(k + 1), '\n') == spec_join(l.take(k), '\n') + seq!['\n'] + l[k],
{
    assert(l.take(k + 1).drop_last() =~= l.take(k));
}

/// The nine lines joined by line breaks, written out.
proof fn lemma_join_nine(l: Seq<Seq<char>>)
    requires
        l.len() == 9,
    ensures
        spec_join(l, '\n') == l[0] + seq!['\n'] + l[1] + seq!['\n'] + l[2] + seq!['\n'] + l[3]
            + seq!['\n'] + l[4] + seq!['\n'] + l[5] + seq!['\n'] + l[6] + seq!['\n'] + l[7] + seq!['\n']
            + l[8],
{
    assert(l.take(1) =~= seq![l[0]]);
    lemma_join_take(l, 1);
    lemma_join_take(l, 2);
    lemma_join_take(l, 3);
    lemma_join_take(l, 4);
    lemma_join_take(l, 5);
    lemma_join_take(l, 6);
    lemma_join_take(l, 7);
    lemma_join_take(l, 8);
    assert(l.take(9) =~= l);
}

proof fn lemma_head_lines(index: nat, o: OperationNameView)
    ensures
        txt_head(index, o) == txt_lines(index, o)[0] + seq!['\n'] + txt_lines(index, o)[1]
            + seq!['\n'] + txt_lines(index, o)[2],
{
    reveal_strlit(")\nTX_ID: ");
    reveal_strlit(")");
    reveal_strlit("\nTX_TYPE: ");
    reveal_strlit("TX_ID");
    reveal_strlit("TX_TYPE");
    let l = txt_lines(index, o);
    assert(txt_head(index, o) =~= l[0] + seq!['\n'] + l[1] + seq!['\n'] + l[2]);
}

proof fn lemma_users_lines(o: OperationNameView)
    ensures
        txt_users(o) == seq!['\n'] + txt_lines(0, o)[3] + seq!['\n'] + txt_lines(0, o)[4],
{
    reveal_strlit("\nFROM_USER_ID: ");
    reveal_strlit("\nTO_USER_ID: ");
    reveal_strlit("FROM_USER_ID");
    reveal_strlit("TO_USER_ID");
    let l = txt_lines(0, o);
    assert(txt_users(o) =~= seq!['\n'] + l[3] + seq!['\n'] + l[4]);
}

proof fn lemma_tail_lines(o: OperationNameView)
    ensures
        txt_tail(o) == seq!['\n'] + txt_lines(0, o)[5] + seq!['\n'] + txt_lines(0, o)[6] + seq!['\n']
            + txt_lines(0, o)[7] + seq!['\n'] + txt_lines(0, o)[8] + seq!['\n', '\n'],
{
    reveal_strlit("\nAMOUNT: ");
    reveal_strlit("\nTIMESTAMP: ");
    reveal_strlit("\nSTATUS: ");
    reveal_strlit("\nDESCRIPTION: ");
    reveal_strlit("\n\n");
    reveal_strlit("AMOUNT");
    reveal_strlit("TIMESTAMP");
    reveal_strlit("STATUS");
    reveal_strlit("DESCRIPTION");
    let l = txt_lines(0, o);
    assert(txt_tail(o) =~= seq!['\n'] + l[5] + seq!['\n'] + l[6] + seq!['\n'] + l[7] + seq!['\n']
        + l[8] + seq!['\n', '\n']);
}

/// A text block is its lines joined by line breaks, then a blank line.
proof fn lemma_record_lines(index: nat, o: OperationNameView)
    ensures
        spec_txt_record(index, o) == spec_join(txt_lines(index, o), '\n') + seq!['\n', '\n'],
{
    let l = txt_lines(index, o);
    let z = txt_lines(0, o);
    assert(forall|i: int| 1 <= i < 9 ==> l[i] == z[i]);
    lemma_join_nine(l);
    lemma_head_lines(index, o);
    lemma_users_lines(o);
    lemma_tail_lines(o);
    assert(spec_txt_record(index, o) =~= l[0] + seq!['\n'] + l[1] + seq!['\n'] + l[2] + seq!['\n']
        + l[3] + seq!['\n'] + l[4] + seq!['\n'] + l[5] + seq!['\n'] + l[6] + seq!['\n'] + l[7]
        + seq!['\n'] + l[8] + seq!['\n', '\n']);
}


/// Whether a value stands in the text format as it is: it holds no line
/// break and no surrounding whitespace.
pub open spec fn plain_value(v: Seq<char>) -> bool {
    !v.contains('\n') && trim(v, false) == v
}

/// Whether the operation `o` reads back from the text format: skipped
/// operations are not written; for the others, both users and the
/// description are plain values, and neither user holds the key of a later
/// line of its block.
pub open spec fn txt_readable(o: OperationNameView) -> bool {
    !is_skipped(o.0.tx_type) ==> {
        &&& plain_value(from_field(o))
        &&& plain_value(to_field(o))
        &&& plain_value(o.0.description)
        &&& no_occurrence(from_field(o), "TO_USER_ID"@)
        &&& no_occurrence(from_field(o), "AMOUNT"@)
        &&& no_occurrence(from_field(o), "TIMESTAMP"@)
        &&& no_occurrence(from_field(o), "STATUS"@)
        &&& no_occurrence(from_field(o), "DESCRIPTION"@)
        &&& no_occurrence(to_field(o), "AMOUNT"@)
        &&& no_occurrence(to_field(o), "TIMESTAMP"@)
        &&& no_occurrence(to_field(o), "STATUS"@)
        &&& no_occurrence(to_field(o), "DESCRIPTION"@)
    }
}

/// The user that reading a block assigns to it: the sender, unless the
/// sender is `0`.
pub open spec fn read_name(o: OperationNameView) -> Seq<char> {
    if from_field(o) == "0"@ {
        to_field(o)
    } else {
        from_field(o)
    }
}

/// What reading the text written for `ops` gives: the operations that are
/// written, each with the user that reading assigns to it.
pub open spec fn txt_read_back(ops: Seq<OperationNameView>) -> Seq<OperationNameView>
    decreases ops.len(),
{
    if ops.len() == 0 {
        seq![]
    } else if is_skipped(ops[0].0.tx_type) {
        txt_read_back(ops.drop_first())
    } else {
        seq![(ops[0].0, read_name(ops[0]))] + txt_read_back(ops.drop_first())
    }
}

/// Whether `k` is made of capital letters and underscores, as the keys of
/// the text format are.
pub open spec fn key_like(k: Seq<char>) -> bool {
    k.len() > 0 && forall|i: int| 0 <= i < k.len() ==> ('A' <= #[trigger] k[i] <= 'Z' || k[i] == '_')
}

/// A key holds none of the characters that separate values.
proof fn lemma_key_chars(k: Seq<char>, c: char)
    requires
        key_like(k),
        !('A' <= c <= 'Z' || c == '_'),
    ensures
        !k.contains(c),
{
    if k.contains(c) {
        let j = choose|j: int| 0 <= j < k.len() && k[j] == c;
        assert('A' <= k[j] <= 'Z' || k[j] == '_');
    }
}

/// The digits of a number hold no key.
proof fn lemma_decimal_free(n: nat, k: Seq<char>)
    requires
        key_like(k),
    ensures
        no_occurrence(spec_decimal(n), k),
        !spec_decimal(n).contains('\n'),
        spec_decimal(n).len() > 0,
        trim(spec_decimal(n), false) == spec_decimal(n),
{
    lemma_decimal_digits(n);
    let d = spec_decimal(n);
    assert forall|i: int| 0 <= i < d.len() implies !k.contains(#[trigger] d[i]) by {
        assert(crate::text::is_digit(d[i]));
        lemma_key_chars(k, d[i]);
    }
    lemma_no_occurrence_alphabet(d, k);
    if d.contains('\n') {
        let j = choose|j: int| 0 <= j < d.len() && d[j] == '\n';
        assert(crate::text::is_digit(d[j]));
    }
    assert(crate::text::is_digit(d[0]) && crate::text::is_digit(d.last()));
    lemma_trim_plain(d);
}

/// A line `<key>: <v>` holds no key `k` that neither `key` nor `v` holds.
proof fn lemma_line_free(key: Seq<char>, v: Seq<char>, k: Seq<char>)
    requires
        key_like(k),
        no_occurrence(key, k),
        no_occurrence(v, k),
    ensures
        no_occurrence(key + seq![':', ' '] + v, k),
{
    let sep = seq![':', ' '];
    lemma_key_chars(k, ':');
    lemma_key_chars(k, ' ');
    assert forall|i: int| 0 <= i < sep.len() implies !k.contains(#[trigger] sep[i]) by {}
    lemma_no_occurrence_alphabet(sep, k);
    lemma_no_occurrence_concat(key, sep, k);
    lemma_no_occurrence_concat(key + sep, v, k);
}

/// A text of characters that are not in any key holds no key.
proof fn lemma_plain_text_free(t: Seq<char>, k: Seq<char>)
    requires
        key_like(k),
        forall|i: int| 0 <= i < t.len() ==> !('A' <= #[trigger] t[i] <= 'Z' || t[i] == '_'),
    ensures
        no_occurrence(t, k),
{
    assert forall|i: int| 0 <= i < t.len() implies !k.contains(#[trigger] t[i]) by {
        lemma_key_chars(k, t[i]);
    }
    lemma_no_occurrence_alphabet(t, k);
}

/// The header line `# Record <index> (<word>)` holds no key of at least two
/// characters that the word does not hold.
proof fn lemma_header_free(index: nat, w: Seq<char>, k: Seq<char>)
    requires
        key_like(k),
        k.len() >= 2,
        no_occurrence(w, k),
    ensures
        no_occurrence("# Record "@ + spec_decimal(index) + " ("@ + w + ")"@, k),
{
    reveal_strlit("# Record ");
    reveal_strlit(" (");
    reveal_strlit(")");
    let a = seq!['#', ' '];
    let r = seq!['R'];
    let b = seq!['e', 'c', 'o', 'r', 'd', ' '];
    lemma_plain_text_free(a, k);
    lemma_no_occurrence_short(r, k);
    lemma_plain_text_free(b, k);
    lemma_key_chars(k, ' ');
    lemma_key_chars(k, 'e');
    lemma_key_chars(k, '(');
    lemma_key_chars(k, ')');
    lemma_no_occurrence_concat(a, r, k);
    lemma_no_occurrence_concat(a + r, b, k);
    assert("# Record "@ =~= a + r + b);
    lemma_decimal_free(index, k);
    lemma_no_occurrence_concat(a + r + b, spec_decimal(index), k);
    let open = seq![' ', '('];
    lemma_plain_text_free(open, k);
    let d = spec_decimal(index);
    lemma_decimal_digits(index);
    assert(crate::text::is_digit(d.last()));
    lemma_key_chars(k, d.last());
    lemma_no_occurrence_concat("# Record "@ + d, open, k);
    assert(" ("@ =~= open);
    lemma_no_occurrence_concat("# Record "@ + d + open, w, k);
    lemma_plain_text_free(seq![')'], k);
    lemma_no_occurrence_concat("# Record "@ + d + open + w, seq![')'], k);
    assert(")"@ =~= seq![')']);
}


/// The keys of the text format are key-like, and none holds a key of a
/// later line.
proof fn lemma_keys()
    ensures
        key_like("TX_ID"@),
        key_like("TX_TYPE"@),
        key_like("FROM_USER_ID"@),
        key_like("TO_USER_ID"@),
        key_like("AMOUNT"@),
        key_like("TIMESTAMP"@),
        key_like("STATUS"@),
        key_like("DESCRIPTION"@),
        no_occurrence("TX_ID"@, "TX_TYPE"@),
        no_occurrence("TX_ID"@, "FROM_USER_ID"@),
        no_occurrence("TX_ID"@, "TO_USER_ID"@),
        no_occurrence("TX_ID"@, "AMOUNT"@),
        no_occurrence("TX_ID"@, "TIMESTAMP"@),
        no_occurrence("TX_ID"@, "STATUS"@),
        no_occurrence("TX_ID"@, "DESCRIPTION"@),
        no_occurrence("TX_TYPE"@, "FROM_USER_ID"@),
        no_occurrence("TX_TYPE"@, "TO_USER_ID"@),
        no_occurrence("TX_TYPE"@, "AMOUNT"@),
        no_occurrence("TX_TYPE"@, "TIMESTAMP"@),
        no_occurrence("TX_TYPE"@, "STATUS"@),
        no_occurrence("TX_TYPE"@, "DESCRIPTION"@),
        no_occurrence("FROM_USER_ID"@, "TO_USER_ID"@),
        no_occurrence("FROM_USER_ID"@, "AMOUNT"@),
        no_occurrence("FROM_USER_ID"@, "TIMESTAMP"@),
        no_occurrence("FROM_USER_ID"@, "STATUS"@),
        no_occurrence("FROM_USER_ID"@, "DESCRIPTION"@),
        no_occurrence("TO_USER_ID"@, "AMOUNT"@),
        no_occurrence("TO_USER_ID"@, "TIMESTAMP"@),
        no_occurrence("TO_USER_ID"@, "STATUS"@),
        no_occurrence("TO_USER_ID"@, "DESCRIPTION"@),
        no_occurrence("AMOUNT"@, "TIMESTAMP"@),
        no_occurrence("AMOUNT"@, "STATUS"@),
        no_occurrence("AMOUNT"@, "DESCRIPTION"@),
        no_occurrence("TIMESTAMP"@, "STATUS"@),
        no_occurrence("TIMESTAMP"@, "DESCRIPTION"@),
        no_occurrence("STATUS"@, "DESCRIPTION"@),
{
    reveal_strlit("TX_ID");
    reveal_strlit("TX_TYPE");
    reveal_strlit("FROM_USER_ID");
    reveal_strlit("TO_USER_ID");
    reveal_strlit("AMOUNT");
    reveal_strlit("TIMESTAMP");
    reveal_strlit("STATUS");
    reveal_strlit("DESCRIPTION");
    assert("TX_TYPE"@[4] == 'Y');
    assert("FROM_USER_ID"@[0] == 'F');
    assert("TO_USER_ID"@[1] == 'O');
    assert("AMOUNT"@[0] == 'A');
    assert("TIMESTAMP"@[2] == 'M');
    assert("STATUS"@[0] == 'S');
    assert("DESCRIPTION"@[1] == 'E');
    assert("FROM_USER_ID"@[0] == 'F');
    assert("TO_USER_ID"@[1] == 'O');
    assert("AMOUNT"@[0] == 'A');
    assert("TIMESTAMP"@[1] == 'I');
    assert("STATUS"@[0] == 'S');
    assert("DESCRIPTION"@[0] == 'D');
    assert("TO_USER_ID"@[0] == 'T');
    assert("AMOUNT"@[0] == 'A');
    assert("TIMESTAMP"@[0] == 'T');
    assert("STATUS"@[1] == 'T');
    assert("DESCRIPTION"@[3] == 'C');
    assert("AMOUNT"@[0] == 'A');
    assert("TIMESTAMP"@[2] == 'M');
    assert("STATUS"@[2] == 'A');
    assert("DESCRIPTION"@[3] == 'C');
    assert("TIMESTAMP"@[1] == 'I');
    assert("STATUS"@[0] == 'S');
    assert("DESCRIPTION"@[0] == 'D');
    assert("STATUS"@[4] == 'U');
    assert("DESCRIPTION"@[0] == 'D');
    assert("DESCRIPTION"@[0] == 'D');
    lemma_no_occurrence_missing("TX_ID"@, "TX_TYPE"@, 'Y');
    lemma_no_occurrence_missing("TX_ID"@, "FROM_USER_ID"@, 'F');
    lemma_no_occurrence_missing("TX_ID"@, "TO_USER_ID"@, 'O');
    lemma_no_occurrence_missing("TX_ID"@, "AMOUNT"@, 'A');
    lemma_no_occurrence_missing("TX_ID"@, "TIMESTAMP"@, 'M');
    lemma_no_occurrence_missing("TX_ID"@, "STATUS"@, 'S');
    lemma_no_occurrence_missing("TX_ID"@, "DESCRIPTION"@, 'E');
    lemma_no_occurrence_missing("TX_TYPE"@, "FROM_USER_ID"@, 'F');
    lemma_no_occurrence_missing("TX_TYPE"@, "TO_USER_ID"@, 'O');
    lemma_no_occurrence_missing("TX_TYPE"@, "AMOUNT"@, 'A');
    lemma_no_occurrence_missing("TX_TYPE"@, "TIMESTAMP"@, 'I');
    lemma_no_occurrence_missing("TX_TYPE"@, "STATUS"@, 'S');
    lemma_no_occurrence_missing("TX_TYPE"@, "DESCRIPTION"@, 'D');
    lemma_no_occurrence_missing("FROM_USER_ID"@, "TO_USER_ID"@, 'T');
    lemma_no_occurrence_missing("FROM_USER_ID"@, "AMOUNT"@, 'A');
    lemma_no_occurrence_missing("FROM_USER_ID"@, "TIMESTAMP"@, 'T');
    lemma_no_occurrence_missing("FROM_USER_ID"@, "STATUS"@, 'T');
    lemma_no_occurrence_missing("FROM_USER_ID"@, "DESCRIPTION"@, 'C');
    lemma_no_occurrence_missing("TO_USER_ID"@, "AMOUNT"@, 'A');
    lemma_no_occurrence_missing("TO_USER_ID"@, "TIMESTAMP"@, 'M');
    lemma_no_occurrence_missing("TO_USER_ID"@, "STATUS"@, 'A');
    lemma_no_occurrence_missing("TO_USER_ID"@, "DESCRIPTION"@, 'C');
    lemma_no_occurrence_missing("AMOUNT"@, "TIMESTAMP"@, 'I');
    lemma_no_occurrence_missing("AMOUNT"@, "STATUS"@, 'S');
    lemma_no_occurrence_missing("AMOUNT"@, "DESCRIPTION"@, 'D');
    lemma_no_occurrence_missing("TIMESTAMP"@, "STATUS"@, 'U');
    lemma_no_occurrence_missing("TIMESTAMP"@, "DESCRIPTION"@, 'D');
    lemma_no_occurrence_missing("STATUS"@, "DESCRIPTION"@, 'D');
}

/// No word for an operation type holds a key.
proof fn lemma_type_word_free(op: BalanceOpView)
    ensures
        no_occurrence(type_word(op), "TX_ID"@),
        no_occurrence(type_word(op), "TX_TYPE"@),
        no_occurrence(type_word(op), "FROM_USER_ID"@),
        no_occurrence(type_word(op), "TO_USER_ID"@),
        no_occurrence(type_word(op), "AMOUNT"@),
        no_occurrence(type_word(op), "TIMESTAMP"@),
        no_occurrence(type_word(op), "STATUS"@),
        no_occurrence(type_word(op), "DESCRIPTION"@),
{
    reveal_strlit("TX_ID");
    reveal_strlit("TX_TYPE");
    reveal_strlit("FROM_USER_ID");
    reveal_strlit("TO_USER_ID");
    reveal_strlit("AMOUNT");
    reveal_strlit("TIMESTAMP");
    reveal_strlit("STATUS");
    reveal_strlit("DESCRIPTION");
    reveal_strlit("DEPOSIT");
    reveal_strlit("WITHDRAWAL");
    reveal_strlit("TRANSFER");
    match op {
        BalanceOpView::Deposit(_) => {
        assert("TX_ID"@[1] == 'X');
        lemma_no_occurrence_missing("DEPOSIT"@, "TX_ID"@, 'X');
        assert("TX_TYPE"@[1] == 'X');
        lemma_no_occurrence_missing("DEPOSIT"@, "TX_TYPE"@, 'X');
        assert("FROM_USER_ID"@[0] == 'F');
        lemma_no_occurrence_missing("DEPOSIT"@, "FROM_USER_ID"@, 'F');
        assert("TO_USER_ID"@[2] == '_');
        lemma_no_occurrence_missing("DEPOSIT"@, "TO_USER_ID"@, '_');
        assert("AMOUNT"@[0] == 'A');
        lemma_no_occurrence_missing("DEPOSIT"@, "AMOUNT"@, 'A');
        assert("TIMESTAMP"@[2] == 'M');
        lemma_no_occurrence_missing("DEPOSIT"@, "TIMESTAMP"@, 'M');
        assert("STATUS"@[2] == 'A');
        lemma_no_occurrence_missing("DEPOSIT"@, "STATUS"@, 'A');
        assert("DESCRIPTION"@[3] == 'C');
        lemma_no_occurrence_missing("DEPOSIT"@, "DESCRIPTION"@, 'C');
        },
        BalanceOpView::Withdraw(_) => {
        assert("TX_ID"@[1] == 'X');
        lemma_no_occurrence_missing("WITHDRAWAL"@, "TX_ID"@, 'X');
        assert("TX_TYPE"@[1] == 'X');
        lemma_no_occurrence_missing("WITHDRAWAL"@, "TX_TYPE"@, 'X');
        assert("FROM_USER_ID"@[0] == 'F');
        lemma_no_occurrence_missing("WITHDRAWAL"@, "FROM_USER_ID"@, 'F');
        assert("TO_USER_ID"@[1] == 'O');
        lemma_no_occurrence_missing("WITHDRAWAL"@, "TO_USER_ID"@, 'O');
        assert("AMOUNT"@[1] == 'M');
        lemma_no_occurrence_missing("WITHDRAWAL"@, "AMOUNT"@, 'M');
        assert("TIMESTAMP"@[2] == 'M');
        lemma_no_occurrence_missing("WITHDRAWAL"@, "TIMESTAMP"@, 'M');
        assert("STATUS"@[0] == 'S');
        lemma_no_occurrence_missing("WITHDRAWAL"@, "STATUS"@, 'S');
        assert("DESCRIPTION"@[1] == 'E');
        lemma_no_occurrence_missing("WITHDRAWAL"@, "DESCRIPTION"@, 'E');
        },
        _ => {
        assert("TX_ID"@[1] == 'X');
        lemma_no_occurrence_missing("TRANSFER"@, "TX_ID"@, 'X');
        assert("TX_TYPE"@[1] == 'X');
        lemma_no_occurrence_missing("TRANSFER"@, "TX_TYPE"@, 'X');
        assert("FROM_USER_ID"@[2] == 'O');
        lemma_no_occurrence_missing("TRANSFER"@, "FROM_USER_ID"@, 'O');
        assert("TO_USER_ID"@[1] == 'O');
        lemma_no_occurrence_missing("TRANSFER"@, "TO_USER_ID"@, 'O');
        assert("AMOUNT"@[1] == 'M');
        lemma_no_occurrence_missing("TRANSFER"@, "AMOUNT"@, 'M');
        assert("TIMESTAMP"@[1] == 'I');
        lemma_no_occurrence_missing("TRANSFER"@, "TIMESTAMP"@, 'I');
        assert("STATUS"@[4] == 'U');
        lemma_no_occurrence_missing("TRANSFER"@, "STATUS"@, 'U');
        assert("DESCRIPTION"@[0] == 'D');
        lemma_no_occurrence_missing("TRANSFER"@, "DESCRIPTION"@, 'D');
        },
    }
}

/// No word for a status holds the description key.
proof fn lemma_status_word_free(st: Status)
    ensures
        no_occurrence(status_word(st), "DESCRIPTION"@),
{
    reveal_strlit("DESCRIPTION");
    reveal_strlit("SUCCESS");
    reveal_strlit("FAILURE");
    reveal_strlit("PENDING");
    assert("DESCRIPTION"@[0] == 'D');
    assert("DESCRIPTION"@[2] == 'S');
    match st {
        Status::SUCCESS => lemma_no_occurrence_missing("SUCCESS"@, "DESCRIPTION"@, 'D'),
        Status::FAILURE => lemma_no_occurrence_missing("FAILURE"@, "DESCRIPTION"@, 'D'),
        Status::PENDING => lemma_no_occurrence_missing("PENDING"@, "DESCRIPTION"@, 'S'),
    }
}


/// No line break in `a + b` when neither part holds one.
proof fn lemma_no_break_concat(a: Seq<char>, b: Seq<char>)
    requires
        !a.contains('\n'),
        !b.contains('\n'),
    ensures
        !(a + b).contains('\n'),
{
    if (a + b).contains('\n') {
        let k = choose|k: int| 0 <= k < (a + b).len() && (a + b)[k] == '\n';
        if k < a.len() {
            assert(a[k] == '\n');
        } else {
            assert(b[k - a.len()] == '\n');
        }
    }
}

/// A line `<key>: <v>` is not empty and holds no line break when `v` holds
/// none.
proof fn lemma_line_proper(key: Seq<char>, v: Seq<char>)
    requires
        key_like(key),
        !v.contains('\n'),
    ensures
        (key + seq![':', ' '] + v).len() > 0,
        !(key + seq![':', ' '] + v).contains('\n'),
{
    lemma_key_chars(key, '\n');
    let sep = seq![':', ' '];
    assert(!sep.contains('\n')) by {
        if sep.contains('\n') {
            let k = choose|k: int| 0 <= k < sep.len() && sep[k] == '\n';
        }
    }
    lemma_no_break_concat(key, sep);
    lemma_no_break_concat(key + sep, v);
}

/// A key-like word is its own trim.
proof fn lemma_key_trim(w: Seq<char>)
    requires
        key_like(w),
    ensures
        trim(w, false) == w,
        !w.contains('\n'),
{
    assert('A' <= w[0] <= 'Z' || w[0] == '_');
    assert('A' <= w.last() <= 'Z' || w.last() == '_');
    lemma_trim_plain(w);
    lemma_key_chars(w, '\n');
}

/// Reading the text block of an operation that reads back gives the
/// operation, with the user that reading assigns to it.
proof fn lemma_txt_block(index: nat, o: OperationNameView)
    requires
        !is_skipped(o.0.tx_type),
        txt_readable(o),
    ensures
        proper_lines(txt_lines(index, o)),
        spec_txt_block(spec_join(txt_lines(index, o), '\n')) == Ok::<OperationNameView, ParseFileError>(
            (o.0, read_name(o)),
        ),
{
    lemma_keys();
    lemma_type_word_free(o.0.tx_type);
    lemma_status_word_free(o.0.status);
    reveal_strlit("TX_ID");
    reveal_strlit("TX_TYPE");
    reveal_strlit("FROM_USER_ID");
    reveal_strlit("TO_USER_ID");
    reveal_strlit("AMOUNT");
    reveal_strlit("TIMESTAMP");
    reveal_strlit("STATUS");
    reveal_strlit("DESCRIPTION");
    reveal_strlit("DEPOSIT");
    reveal_strlit("WITHDRAWAL");
    reveal_strlit("TRANSFER");
    reveal_strlit("SUCCESS");
    reveal_strlit("FAILURE");
    reveal_strlit("PENDING");
    reveal_strlit("# Record ");
    reveal_strlit(" (");
    reveal_strlit(")");
    let l = txt_lines(index, o);
    let t = type_word(o.0.tx_type);
    let sw = status_word(o.0.status);
    let from = from_field(o);
    let to = to_field(o);
    let desc = o.0.description;
    let amount = amount_field(o.0.tx_type);
    let d_id = spec_decimal(o.0.id as nat);
    let d_amount = spec_decimal(amount as nat);
    let d_ts = spec_decimal(o.0.timestamp as nat);
    assert(key_like(t));
    assert(key_like(sw));
    lemma_key_trim(t);
    lemma_key_trim(sw);
    lemma_decimal_free(index, "TX_ID"@);
    lemma_decimal_free(index, "TX_TYPE"@);
    lemma_decimal_free(index, "FROM_USER_ID"@);
    lemma_decimal_free(index, "TO_USER_ID"@);
    lemma_decimal_free(index, "AMOUNT"@);
    lemma_decimal_free(index, "TIMESTAMP"@);
    lemma_decimal_free(index, "STATUS"@);
    lemma_decimal_free(index, "DESCRIPTION"@);
    lemma_decimal_free(o.0.id as nat, "TX_TYPE"@);
    lemma_decimal_free(o.0.id as nat, "FROM_USER_ID"@);
    lemma_decimal_free(o.0.id as nat, "TO_USER_ID"@);
    lemma_decimal_free(o.0.id as nat, "AMOUNT"@);
    lemma_decimal_free(o.0.id as nat, "TIMESTAMP"@);
    lemma_decimal_free(o.0.id as nat, "STATUS"@);
    lemma_decimal_free(o.0.id as nat, "DESCRIPTION"@);
    lemma_decimal_free(amount as nat, "TIMESTAMP"@);
    lemma_decimal_free(amount as nat, "STATUS"@);
    lemma_decimal_free(amount as nat, "DESCRIPTION"@);
    lemma_decimal_free(o.0.timestamp as nat, "STATUS"@);
    lemma_decimal_free(o.0.timestamp as nat, "DESCRIPTION"@);
    lemma_header_free(index, t, "TX_ID"@);
    lemma_header_free(index, t, "TX_TYPE"@);
    lemma_header_free(index, t, "FROM_USER_ID"@);
    lemma_header_free(index, t, "TO_USER_ID"@);
    lemma_header_free(index, t, "AMOUNT"@);
    lemma_header_free(index, t, "TIMESTAMP"@);
    lemma_header_free(index, t, "STATUS"@);
    lemma_header_free(index, t, "DESCRIPTION"@);
    lemma_line_free("TX_ID"@, d_id, "TX_TYPE"@);
    lemma_line_free("TX_ID"@, d_id, "FROM_USER_ID"@);
    lemma_line_free("TX_ID"@, d_id, "TO_USER_ID"@);
    lemma_line_free("TX_ID"@, d_id, "AMOUNT"@);
    lemma_line_free("TX_ID"@, d_id, "TIMESTAMP"@);
    lemma_line_free("TX_ID"@, d_id, "STATUS"@);
    lemma_line_free("TX_ID"@, d_id, "DESCRIPTION"@);
    lemma_line_free("TX_TYPE"@, t, "FROM_USER_ID"@);
    lemma_line_free("TX_TYPE"@, t, "TO_USER_ID"@);
    lemma_line_free("TX_TYPE"@, t, "AMOUNT"@);
    lemma_line_free("TX_TYPE"@, t, "TIMESTAMP"@);
    lemma_line_free("TX_TYPE"@, t, "STATUS"@);
    lemma_line_free("TX_TYPE"@, t, "DESCRIPTION"@);
    lemma_line_free("FROM_USER_ID"@, from, "TO_USER_ID"@);
    lemma_line_free("FROM_USER_ID"@, from, "AMOUNT"@);
    lemma_line_free("FROM_USER_ID"@, from, "TIMESTAMP"@);
    lemma_line_free("FROM_USER_ID"@, from, "STATUS"@);
    lemma_line_free("FROM_USER_ID"@, from, "DESCRIPTION"@);
    lemma_line_free("TO_USER_ID"@, to, "AMOUNT"@);
    lemma_line_free("TO_USER_ID"@, to, "TIMESTAMP"@);
    lemma_line_free("TO_USER_ID"@, to, "STATUS"@);
    lemma_line_free("TO_USER_ID"@, to, "DESCRIPTION"@);
    lemma_line_free("AMOUNT"@, d_amount, "TIMESTAMP"@);
    lemma_line_free("AMOUNT"@, d_amount, "STATUS"@);
    lemma_line_free("AMOUNT"@, d_amount, "DESCRIPTION"@);
    lemma_line_free("TIMESTAMP"@, d_ts, "STATUS"@);
    lemma_line_free("TIMESTAMP"@, d_ts, "DESCRIPTION"@);
    lemma_line_free("STATUS"@, sw, "DESCRIPTION"@);
    // Every line is non-empty and holds no line break.
    lemma_line_proper("TX_ID"@, d_id);
    lemma_line_proper("TX_TYPE"@, t);
    lemma_line_proper("FROM_USER_ID"@, from);
    lemma_line_proper("TO_USER_ID"@, to);
    lemma_line_proper("AMOUNT"@, d_amount);
    lemma_line_proper("TIMESTAMP"@, d_ts);
    lemma_line_proper("STATUS"@, sw);
    lemma_line_proper("DESCRIPTION"@, desc);
    assert(!l[0].contains('\n')) by {
        let d = spec_decimal(index);
        lemma_decimal_free(index, "TX_ID"@);
        let h = seq!['#', ' ', 'R', 'e', 'c', 'o', 'r', 'd', ' '];
        assert("# Record "@ =~= h);
        assert(!h.contains('\n')) by {
            if h.contains('\n') {
                let k = choose|k: int| 0 <= k < h.len() && h[k] == '\n';
            }
        }
        assert(!" ("@.contains('\n')) by {
            if " ("@.contains('\n') {
                let k = choose|k: int| 0 <= k < " ("@.len() && " ("@[k] == '\n';
            }
        }
        assert(!")"@.contains('\n')) by {
            if ")"@.contains('\n') {
                let k = choose|k: int| 0 <= k < ")"@.len() && ")"@[k] == '\n';
            }
        }
        lemma_no_break_concat(h, d);
        lemma_no_break_concat(h + d, " ("@);
        lemma_no_break_concat(h + d + " ("@, t);
        lemma_no_break_concat(h + d + " ("@ + t, ")"@);
    }
    assert(proper_lines(l));
    lemma_join_lines(l);
    // Each attribute is found on its own line.
    lemma_get_atr_line(l, 1, "TX_ID"@, d_id);
    lemma_get_atr_line(l, 2, "TX_TYPE"@, t);
    lemma_get_atr_line(l, 3, "FROM_USER_ID"@, from);
    lemma_get_atr_line(l, 4, "TO_USER_ID"@, to);
    lemma_get_atr_line(l, 5, "AMOUNT"@, d_amount);
    lemma_get_atr_line(l, 6, "TIMESTAMP"@, d_ts);
    lemma_get_atr_line(l, 7, "STATUS"@, sw);
    lemma_get_atr_line(l, 8, "DESCRIPTION"@, desc);
    lemma_decimal_round_trip(o.0.id);
    lemma_decimal_round_trip(amount);
    lemma_decimal_round_trip(o.0.timestamp);
    assert("DEPOSIT"@[0] != "WITHDRAWAL"@[0] && "DEPOSIT"@[0] != "TRANSFER"@[0]);
    assert("WITHDRAWAL"@[0] != "TRANSFER"@[0]);
    assert("PENDING"@[0] != "SUCCESS"@[0] && "PENDING"@[0] != "FAILURE"@[0]);
    assert("SUCCESS"@[0] != "FAILURE"@[0]);
}


/// Reading back the text written for `ops` (numbered from `first`) gives
/// the operations that are written, in order, each with the user that
/// reading assigns to it, provided each operation reads back (see
/// [`txt_readable`]).
pub proof fn lemma_txt_round_trip(ops: Seq<OperationNameView>, first: nat)
    requires
        forall|i: int| 0 <= i < ops.len() ==> txt_readable(#[trigger] ops[i]),
    ensures
        spec_txt_walk(spec_to_txt(ops, first)) == Ok::<Seq<OperationNameView>, ParseFileError>(
            txt_read_back(ops),
        ),
        spec_from_txt(encode_utf8(spec_to_txt(ops, first))) == Ok::<
            Seq<OperationNameView>,
            ParseFileError,
        >(txt_read_back(ops)),
    decreases ops.len(),
{
    let t = spec_to_txt(ops, first);
    if ops.len() == 0 {
        assert(count_char(Seq::<char>::empty(), '\n') == 0);
    } else {
        let rest = ops.drop_first();
        assert forall|i: int| 0 <= i < rest.len() implies txt_readable(#[trigger] rest[i]) by {
            assert(rest[i] == ops[i + 1]);
        }
        lemma_txt_round_trip(rest, first + 1);
        if !is_skipped(ops[0].0.tx_type) {
            assert(txt_readable(ops[0]));
            let l = txt_lines(first, ops[0]);
            lemma_record_lines(first, ops[0]);
            lemma_txt_block(first, ops[0]);
            let b = spec_join(l, '\n');
            lemma_join_lines(l);
            assert(t =~= b + seq!['\n', '\n'] + spec_to_txt(rest, first + 1));
            lemma_walk_block(b, spec_to_txt(rest, first + 1));
        }
    }
    vstd::utf8::encode_utf8_valid_utf8(t);
    vstd::utf8::encode_utf8_decode_utf8(t);
}


/// Deposits and withdrawals keep their own user when read back.
proof fn lemma_read_back_own(ops: Seq<OperationNameView>)
    requires
        forall|i: int| 0 <= i < ops.len() ==> (#[trigger] ops[i]).0.tx_type is Deposit
            || ops[i].0.tx_type is Withdraw,
    ensures
        txt_read_back(ops) == ops,
    decreases ops.len(),
{
    if ops.len() > 0 {
        let rest = ops.drop_first();
        assert forall|i: int| 0 <= i < rest.len() implies (#[trigger] rest[i]).0.tx_type is Deposit
            || rest[i].0.tx_type is Withdraw by {
            assert(rest[i] == ops[i + 1]);
        }
        lemma_read_back_own(rest);
        let o = ops[0];
        assert(o.0.tx_type is Deposit || o.0.tx_type is Withdraw);
        assert(read_name(o) == o.1);
        assert(seq![(o.0, read_name(o))] + rest =~= ops);
    }
}

/// A list of deposits and withdrawals that read back (see
/// [`txt_readable`]), written in the text format and read again, is the
/// same list.
pub proof fn lemma_txt_round_trip_own(ops: Seq<OperationNameView>, first: nat)
    requires
        forall|i: int| 0 <= i < ops.len() ==> txt_readable(#[trigger] ops[i]),
        forall|i: int| 0 <= i < ops.len() ==> (#[trigger] ops[i]).0.tx_type is Deposit
            || ops[i].0.tx_type is Withdraw,
    ensures
        spec_from_txt(encode_utf8(spec_to_txt(ops, first))) == Ok::<
            Seq<OperationNameView>,
            ParseFileError,
        >(ops),
{
    lemma_txt_round_trip(ops, first);
    lemma_read_back_own(ops);
}

} // verus!
