//! The paragraph numbering definitions of a document: listing them, and
//! making sure there is one.

use vstd::prelude::*;
use crate::document_core::{editor_state_unchanged, DocumentCore};
use crate::encoding::push_char;
use crate::json::{decimal, push_decimal};
use crate::model::style::{Numbering, NumberingHead};
use crate::text::strings_view;

verus! {

/// The format strings of the default numbering: `1.`, `가)`, `(1)`,
/// `(가)`, `①`, `ㄱ)`, `a)` as level patterns.
pub open spec fn default_level_formats() -> Seq<Seq<char>> {
    seq![
        seq!['^', '1', '.'],
        seq!['^', '2', ')'],
        seq!['^', '3', ')'],
        seq!['^', '4', ')'],
        seq!['^', '5', ')'],
        seq!['^', '6', ')'],
        seq!['^', '7', ')'],
    ]
}

/// The number format codes of the levels of the default numbering: digits,
/// Hangul syllables, digits, Hangul syllables, circled digits, Hangul
/// letters, Latin letters.
pub open spec fn default_number_formats() -> Seq<u8> {
    seq![0u8, 8u8, 0u8, 8u8, 1u8, 10u8, 5u8]
}

/// Whether `n` is the default numbering: the default formats, every level
/// and the whole starting from 1.
pub open spec fn is_default_numbering(n: Numbering) -> bool {
    &&& strings_view(n.level_formats@) == default_level_formats()
    &&& n.heads@.map_values(|h: NumberingHead| h.number_format) == default_number_formats()
    &&& n.start_number == 1
    &&& n.level_start_numbers@ == seq![1u32, 1u32, 1u32, 1u32, 1u32, 1u32, 1u32]
}

/// `s` with a backslash put before each double quote.
pub open spec fn dq_escape(s: Seq<char>) -> Seq<char>
    decreases s.len(),
{
    if s.len() == 0 {
        Seq::empty()
    } else {
        dq_escape(s.drop_last()) + if s.last() == '"' {
            seq!['\\', '"']
        } else {
            seq![s.last()]
        }
    }
}

/// The strings of `fs`, each in double quotes (see `dq_escape`), separated
/// by commas.
pub open spec fn quoted_list(fs: Seq<Seq<char>>) -> Seq<char>
    decreases fs.len(),
{
    if fs.len() == 0 {
        Seq::empty()
    } else if fs.len() == 1 {
        seq!['"'] + dq_escape(fs[0]) + seq!['"']
    } else {
        quoted_list(fs.drop_last()) + seq![','] + seq!['"'] + dq_escape(fs.last()) + seq!['"']
    }
}

/// `{"id":<id>,"levelFormats":[..],"startNumber":<n>}` for numbering `n`.
pub open spec fn numbering_item(id: nat, n: Numbering) -> Seq<char> {
    "{\"id\":"@ + decimal(id) + ",\"levelFormats\":["@ + quoted_list(strings_view(n.level_formats@))
        + "],\"startNumber\":"@ + decimal(n.start_number as nat) + "}"@
}

/// The items of `ns` (numbered from 1), separated by commas.
pub open spec fn numbering_items(ns: Seq<Numbering>) -> Seq<char>
    decreases ns.len(),
{
    if ns.len() == 0 {
        Seq::empty()
    } else if ns.len() == 1 {
        numbering_item(1, ns[0])
    } else {
        numbering_items(ns.drop_last()) + seq![','] + numbering_item(ns.len(), ns.last())
    }
}

/// The JSON list of the numberings `ns`.
pub open spec fn numbering_list_json(ns: Seq<Numbering>) -> Seq<char> {
    seq!['['] + numbering_items(ns) + seq![']']
}

/// Appends `s` in double quotes, each double quote of it escaped.
fn push_quoted(out: &mut String, s: &str)
    ensures
        final(out)@ == old(out)@ + seq!['"'] + dq_escape(s@) + seq!['"'],
{
    let chars = crate::encoding::chars_of(s);
    push_char(out, '"');
    let ghost start = out@;
    let mut i: usize = 0;
    while i < chars.len()
        invariant
            i <= chars@.len(),
            chars@ == s@,
            out@ == start + dq_escape(chars@.subrange(0, i as int)),
        decreases chars@.len() - i,
    {
        let c = chars[i];
        if c == '"' {
            push_char(out, '\\');
        }
        push_char(out, c);
        assert(chars@.subrange(0, i + 1).drop_last() =~= chars@.subrange(0, i as int));
        assert(out@ =~= start + dq_escape(chars@.subrange(0, i + 1)));
        i = i + 1;
    }
    assert(chars@.subrange(0, chars@.len() as int) =~= s@);
    push_char(out, '"');
    assert(out@ =~= old(out)@ + seq!['"'] + dq_escape(s@) + seq!['"']);
}

/// Appends the JSON item of numbering `n` with ID `id`.
fn push_numbering_item(out: &mut String, id: u64, n: &Numbering)
    ensures
        final(out)@ == old(out)@ + numbering_item(id as nat, *n),
{
    let ghost fs = strings_view(n.level_formats@);
    out.append("{\"id\":");
    push_decimal(out, id);
    out.append(",\"levelFormats\":[");
    let ghost start = out@;
    let mut k: usize = 0;
    while k < 7
        invariant
            k <= 7,
            fs == strings_view(n.level_formats@),
            fs.len() == 7,
            out@ == start + quoted_list(fs.subrange(0, k as int)),
        decreases 7 - k,
    {
        assert(fs.subrange(0, k + 1).drop_last() =~= fs.subrange(0, k as int));
        assert(fs.subrange(0, k + 1).last() == n.level_formats@[k as int]@);
        if k > 0 {
            push_char(out, ',');
        }
        push_quoted(out, n.level_formats[k].as_str());
        proof {
            if k == 0 {
                assert(out@ =~= start + quoted_list(fs.subrange(0, 1)));
            } else {
                assert(out@ =~= start + quoted_list(fs.subrange(0, k + 1)));
            }
        }
        k = k + 1;
    }
    assert(fs.subrange(0, 7) =~= fs);
    out.append("],\"startNumber\":");
    push_decimal(out, n.start_number as u64);
    out.append("}");
}

impl DocumentCore {
    /// The numbering definitions of the document as JSON:
    /// `[{"id":1,"levelFormats":[..],"startNumber":..},..]`, IDs counting
    /// from 1 (see `numbering_list_json`).
    pub fn get_numbering_list(&self) -> (r: String)
        ensures
            r@ == numbering_list_json(self.document.doc_info.numberings@),
    {
        let ns = &self.document.doc_info.numberings;
        let mut out = String::new();
        push_char(&mut out, '[');
        let ghost start = out@;
        let mut i: usize = 0;
        while i < ns.len()
            invariant
                i <= ns@.len(),
                out@ == start + numbering_items(ns@.subrange(0, i as int)),
            decreases ns@.len() - i,
        {
            assert(ns@.subrange(0, i + 1).drop_last() =~= ns@.subrange(0, i as int));
            assert(ns@.subrange(0, i + 1).last() == ns@[i as int]);
            if i > 0 {
                push_char(&mut out, ',');
            }
            push_numbering_item(&mut out, (i + 1) as u64, &ns[i]);
            proof {
                if i == 0 {
                    assert(out@ =~= start + numbering_items(ns@.subrange(0, 1)));
                } else {
                    assert(out@ =~= start + numbering_items(ns@.subrange(0, i + 1)));
                }
            }
            i = i + 1;
        }
        assert(ns@.subrange(0, ns@.len() as int) =~= ns@);
        push_char(&mut out, ']');
        assert(out@ =~= numbering_list_json(ns@));
        out
    }

    /// Makes sure the document has a numbering definition: where it has
    /// none, adds the default one (see `is_default_numbering`). Answers the
    /// ID of the first definition, 1.
    pub fn ensure_default_numbering(&mut self) -> (r: u16)
        ensures
            r == 1,
            old(self).document.doc_info.numberings@.len() > 0 ==> *final(self) == *old(self),
            old(self).document.doc_info.numberings@.len() == 0 ==> {
                &&& final(self).document.doc_info.numberings@.len() == 1
                &&& is_default_numbering(final(self).document.doc_info.numberings@[0])
                &&& final(self).document.sections == old(self).document.sections
                &&& final(self).document.bin_data_content == old(self).document.bin_data_content
                &&& editor_state_unchanged(*old(self), *final(self))
            },
    {
        if self.document.doc_info.numberings.len() > 0 {
            return 1;
        }
        let formats = [
            String::from_str("^1."),
            String::from_str("^2)"),
            String::from_str("^3)"),
            String::from_str("^4)"),
            String::from_str("^5)"),
            String::from_str("^6)"),
            String::from_str("^7)"),
        ];
        proof {
            reveal_strlit("^1.");
            reveal_strlit("^2)");
            reveal_strlit("^3)");
            reveal_strlit("^4)");
            reveal_strlit("^5)");
            reveal_strlit("^6)");
            reveal_strlit("^7)");
            assert(formats@[0]@ =~= seq!['^', '1', '.']);
            assert(formats@[1]@ =~= seq!['^', '2', ')']);
            assert(formats@[2]@ =~= seq!['^', '3', ')']);
            assert(formats@[3]@ =~= seq!['^', '4', ')']);
            assert(formats@[4]@ =~= seq!['^', '5', ')']);
            assert(formats@[5]@ =~= seq!['^', '6', ')']);
            assert(formats@[6]@ =~= seq!['^', '7', ')']);
            assert(strings_view(formats@) =~= default_level_formats());
        }
        let n = Numbering {
            heads: [
                NumberingHead { number_format: 0 },
                NumberingHead { number_format: 8 },
                NumberingHead { number_format: 0 },
                NumberingHead { number_format: 8 },
                NumberingHead { number_format: 1 },
                NumberingHead { number_format: 10 },
                NumberingHead { number_format: 5 },
            ],
            level_formats: formats,
            start_number: 1,
            level_start_numbers: [1, 1, 1, 1, 1, 1, 1],
        };
        proof {
            assert(n.heads@.map_values(|h: NumberingHead| h.number_format) =~= default_number_formats());
            assert(n.level_start_numbers@ =~= seq![1u32, 1u32, 1u32, 1u32, 1u32, 1u32, 1u32]);
        }
        self.document.doc_info.numberings.push(n);
        1
    }
}

} // verus!
