//! The persisted form of the entry sequence: each description is written
//! as its character count in decimal, a newline, the description itself,
//! and a closing newline. The empty document stands for the empty store.
//! Parsing accepts exactly the texts this encoding produces.

use vstd::prelude::*;

use crate::digits::dec_digits;
use crate::digits::digit_prefix_len;
use crate::digits::digit_val;
use crate::digits::digit_val_exec;
use crate::digits::digits_value;
use crate::digits::fmt_usize;
use crate::digits::is_digit;
use crate::digits::lemma_dec_digits_shape;
use crate::digits::lemma_dec_digits_value;
use crate::digits::lemma_digit_prefix_len_unique;
use crate::entry::Entry;
use crate::entry::views_of;
use crate::render::newline_str;
use crate::StoreError;

verus! {

/// One persisted record: the description's length in decimal, a newline,
/// the description, a newline.
pub open spec fn encode_entry(d: Seq<char>) -> Seq<char> {
    dec_digits(d.len()) + seq!['\n'] + d + seq!['\n']
}

/// The persisted document: the records in sequence order.
pub open spec fn encode_entries(es: Seq<Seq<char>>) -> Seq<char>
    decreases es.len(),
{
    if es.len() == 0 {
        Seq::empty()
    } else {
        encode_entry(es[0]) + encode_entries(es.subrange(1, es.len() as int))
    }
}

/// What a persisted document means: the sequence of descriptions it
/// encodes, or nothing if it is not an encoding.
pub open spec fn parse_entries(s: Seq<char>) -> Option<Seq<Seq<char>>>
    decreases s.len(),
{
    if s.len() == 0 {
        Some(Seq::empty())
    } else {
        let k = digit_prefix_len(s);
        if k == 0 || k >= s.len() || s[k as int] != '\n' {
            None
        } else {
            let v = digits_value(s.subrange(0, k as int));
            let rest = s.subrange(k as int + 1, s.len() as int);
            if rest.len() < v + 1 || rest[v as int] != '\n' {
                None
            } else {
                let d = rest.subrange(0, v as int);
                let tail = rest.subrange(v as int + 1, rest.len() as int);
                match parse_entries(tail) {
                    Some(es) => Some(seq![d] + es),
                    None => None,
                }
            }
        }
    }
}

/// Appending one record to a document encodes the sequence with that
/// description appended.
pub proof fn lemma_encode_entries_snoc(es: Seq<Seq<char>>, d: Seq<char>)
    ensures
        encode_entries(es.push(d)) == encode_entries(es) + encode_entry(d),
    decreases es.len(),
{
    let s = es.push(d);
    if es.len() == 0 {
        assert(s[0] == d);
        assert(s.subrange(1, s.len() as int) =~= Seq::<Seq<char>>::empty());
        assert(encode_entry(d) + encode_entries(Seq::<Seq<char>>::empty()) =~= encode_entry(d));
        assert(encode_entries(es) + encode_entry(d) =~= encode_entry(d));
    } else {
        let es1 = es.subrange(1, es.len() as int);
        lemma_encode_entries_snoc(es1, d);
        assert(s[0] == es[0]);
        assert(s.subrange(1, s.len() as int) =~= es1.push(d));
        assert(encode_entry(es[0]) + (encode_entries(es1) + encode_entry(d)) =~= (encode_entry(
            es[0],
        ) + encode_entries(es1)) + encode_entry(d));
    }
}

/// Reading a persisted document back yields exactly the sequence it was
/// written from: the encoding loses nothing and invents nothing.
pub proof fn lemma_round_trip(es: Seq<Seq<char>>)
    ensures
        parse_entries(encode_entries(es)) == Some(es),
    decreases es.len(),
{
    if es.len() == 0 {
        assert(encode_entries(es).len() == 0);
        assert(es =~= Seq::<Seq<char>>::empty());
    } else {
        let d = es[0];
        let tail_es = es.subrange(1, es.len() as int);
        lemma_round_trip(tail_es);
        let ds = dec_digits(d.len());
        lemma_dec_digits_shape(d.len());
        lemma_dec_digits_value(d.len());
        let k = ds.len();
        let s = encode_entries(es);
        let rest_enc = encode_entries(tail_es);
        assert(s =~= ds + seq!['\n'] + d + seq!['\n'] + rest_enc);
        assert(s.len() == k + 1 + d.len() + 1 + rest_enc.len());
        assert forall|j: int| 0 <= j < k implies is_digit(#[trigger] s[j]) by {
            assert(s[j] == ds[j]);
        }
        assert(s[k as int] == '\n');
        assert(!is_digit('\n'));
        lemma_digit_prefix_len_unique(s, k as nat);
        assert(s.subrange(0, k as int) =~= ds);
        assert(digits_value(s.subrange(0, k as int)) == d.len());
        let rest = s.subrange(k as int + 1, s.len() as int);
        assert(rest =~= d + seq!['\n'] + rest_enc);
        assert(rest.len() == d.len() + 1 + rest_enc.len());
        assert(rest[d.len() as int] == '\n');
        assert(rest.subrange(0, d.len() as int) =~= d);
        let tail = rest.subrange(d.len() as int + 1, rest.len() as int);
        assert(tail =~= rest_enc);
        assert(parse_entries(s) == Some(seq![d] + tail_es));
        assert(seq![d] + tail_es =~= es);
    }
}

/// Writes the entries in their persisted form.
pub fn encode_entries_exec(entries: &Vec<Entry>) -> (out: String)
    ensures
        out@ == encode_entries(views_of(entries@)),
{
    let ghost vs = views_of(entries@);
    let mut out = String::new();
    proof {
        assert(vs.subrange(0, 0) =~= Seq::<Seq<char>>::empty());
    }
    let mut i: usize = 0;
    while i < entries.len()
        invariant
            i <= entries@.len(),
            vs == views_of(entries@),
            out@ == encode_entries(vs.subrange(0, i as int)),
        decreases entries@.len() - i,
    {
        let e = &entries[i];
        let len_chars = e.description().unicode_len();
        let num = fmt_usize(len_chars);
        out.append(num.as_str());
        out.append(newline_str());
        out.append(e.description());
        out.append(newline_str());
        proof {
            lemma_encode_entries_snoc(vs.subrange(0, i as int), vs[i as int]);
            assert(vs.subrange(0, i as int).push(vs[i as int]) =~= vs.subrange(0, i as int + 1));
            assert(out@ =~= encode_entries(vs.subrange(0, i as int)) + encode_entry(
                vs[i as int],
            ));
        }
        i = i + 1;
    }
    proof {
        assert(vs.subrange(0, i as int) =~= vs);
    }
    out
}

/// Reads entries back from their persisted form; any other text is
/// corrupt.
pub fn decode_entries_exec(s: &str) -> (r: Result<Vec<Entry>, StoreError>)
    ensures
        r is Ok <==> parse_entries(s@) is Some,
        r matches Ok(v) ==> Some(views_of(v@)) == parse_entries(s@),
        r matches Err(e) ==> e == StoreError::CorruptState,
    decreases s@.len(),
{
    let n = s.unicode_len();
    if n == 0 {
        let v: Vec<Entry> = Vec::new();
        proof {
            assert(views_of(v@) =~= Seq::<Seq<char>>::empty());
        }
        return Ok(v);
    }
    // the record's length field: a maximal run of digits
    let mut k: usize = 0;
    while k < n && digit_val_exec(s.get_char(k)) < 10
        invariant
            k <= n,
            n == s@.len(),
            forall|j: int| 0 <= j < k ==> is_digit(#[trigger] s@[j]),
        decreases n - k,
    {
        k = k + 1;
    }
    proof {
        lemma_digit_prefix_len_unique(s@, k as nat);
    }
    if k == 0 || k == n {
        return Err(StoreError::CorruptState);
    }
    if s.get_char(k) != '\n' {
        return Err(StoreError::CorruptState);
    }
    // the length field's value; a value beyond the document's own length
    // cannot be met by what follows, so it need not be held exactly
    let ghost pref = s@.subrange(0, k as int);
    let ghost v_spec = digits_value(pref);
    let mut acc: u128 = 0;
    let mut big: bool = false;
    let mut j: usize = 0;
    proof {
        assert(s@.subrange(0, 0) =~= Seq::<char>::empty());
    }
    while j < k
        invariant
            j <= k <= n,
            n == s@.len(),
            big ==> digits_value(s@.subrange(0, j as int)) > n as nat,
            !big ==> acc == digits_value(s@.subrange(0, j as int)) && acc <= n as u128,
        decreases k - j,
    {
        let dv = digit_val_exec(s.get_char(j));
        proof {
            assert(s@.subrange(0, j as int + 1).drop_last() =~= s@.subrange(0, j as int));
            assert(s@.subrange(0, j as int + 1).last() == s@[j as int]);
            assert(digits_value(s@.subrange(0, j as int + 1)) == digits_value(
                s@.subrange(0, j as int),
            ) * 10 + digit_val(s@[j as int]));
        }
        if big {
            proof {
                let o = digits_value(s@.subrange(0, j as int));
                assert(o * 10 + digit_val(s@[j as int]) >= o) by (nonlinear_arith);
            }
        } else {
            let newacc = acc * 10 + dv as u128;
            if newacc > n as u128 {
                big = true;
            } else {
                acc = newacc;
            }
        }
        j = j + 1;
    }
    proof {
        assert(s@.subrange(0, j as int) == pref);
    }
    // what follows the length field and its newline
    let rest_start = k + 1;
    let rest_len = n - rest_start;
    let ghost rest = s@.subrange(k as int + 1, n as int);
    proof {
        assert(rest.len() == rest_len);
    }
    if big {
        // the claimed length exceeds the whole document: nothing can
        // satisfy it
        proof {
            assert(rest.len() < v_spec + 1);
        }
        return Err(StoreError::CorruptState);
    }
    let v = acc as usize;
    if rest_len < 1 || rest_len - 1 < v {
        proof {
            assert(rest.len() < v_spec + 1);
        }
        return Err(StoreError::CorruptState);
    }
    proof {
        assert(rest[v as int] == s@[k as int + 1 + v]);
    }
    if s.get_char(rest_start + v) != '\n' {
        return Err(StoreError::CorruptState);
    }
    let d_str = s.substring_char(rest_start, rest_start + v);
    let tail_str = s.substring_char(rest_start + v + 1, n);
    proof {
        assert(d_str@ =~= rest.subrange(0, v as int));
        assert(tail_str@ =~= rest.subrange(v as int + 1, rest.len() as int));
    }
    let entry = Entry::from(d_str);
    match decode_entries_exec(tail_str) {
        Ok(mut restv) => {
            restv.insert(0, entry);
            proof {
                let tail_parsed = parse_entries(tail_str@).unwrap();
                assert(views_of(restv@) =~= seq![d_str@] + tail_parsed);
            }
            Ok(restv)
        },
        Err(e) => Err(e),
    }
}

} // verus!
