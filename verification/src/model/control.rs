//! Controls embedded in a paragraph.

use vstd::prelude::*;
use crate::model::picture::Picture;
use crate::model::shape::ShapeObject;
use crate::model::table::Table;
use crate::encoding::chars_of;
use crate::json::{decimal, push_decimal};
use crate::text::{digits_end, digits_value, find_chars, find_from, is_digit, lemma_find_from_occurs};

verus! {

/// Kind of a field control.
#[derive(Debug, Clone, Copy, PartialEq, Eq, Structural, Default)]
pub enum FieldType {
    #[default]
    Unknown,
    Date,
    DocDate,
    Path,
    Bookmark,
    MailMerge,
    CrossRef,
    Formula,
    ClickHere,
    Summary,
    UserInfo,
    Hyperlink,
    Memo,
    PrivateInfoSecurity,
    TableOfContents,
}

/// A field control (FIELD_BEGIN).
#[derive(Debug, Clone, Default)]
pub struct Field {
    pub field_type: FieldType,
    /// The command string, e.g. `Direction:wstring:5:Name? HelpState:wstring:0:`.
    pub command: String,
    pub properties: u32,
    pub extra_properties: u8,
    pub field_id: u32,
    pub ctrl_id: u32,
    /// The field's name, kept in the control's CTRL_DATA record.
    pub ctrl_data_name: Option<String>,
    pub memo_index: u32,
}

/// What a field is, with its strings as character sequences.
pub struct FieldView {
    pub field_type: FieldType,
    pub command: Seq<char>,
    pub properties: u32,
    pub extra_properties: u8,
    pub field_id: u32,
    pub ctrl_id: u32,
    pub ctrl_data_name: Option<Seq<char>>,
    pub memo_index: u32,
}

/// The characters of an optional string.
pub open spec fn opt_string_view(s: Option<String>) -> Option<Seq<char>> {
    match s {
        Some(t) => Some(t@),
        None => None,
    }
}

impl View for Field {
    type V = FieldView;

    open spec fn view(&self) -> FieldView {
        FieldView {
            field_type: self.field_type,
            command: self.command@,
            properties: self.properties,
            extra_properties: self.extra_properties,
            field_id: self.field_id,
            ctrl_id: self.ctrl_id,
            ctrl_data_name: opt_string_view(self.ctrl_data_name),
            memo_index: self.memo_index,
        }
    }
}

/// A copy of an optional string.
pub fn copy_opt_string(s: &Option<String>) -> (r: Option<String>)
    ensures
        opt_string_view(r) == opt_string_view(*s),
{
    match s {
        Some(t) => Some(t.clone()),
        None => None,
    }
}

impl Field {
    /// A copy of this field.
    pub fn duplicate(&self) -> (r: Field)
        ensures
            r@ == self@,
    {
        Field {
            field_type: self.field_type,
            command: self.command.clone(),
            properties: self.properties,
            extra_properties: self.extra_properties,
            field_id: self.field_id,
            ctrl_id: self.ctrl_id,
            ctrl_data_name: copy_opt_string(&self.ctrl_data_name),
            memo_index: self.memo_index,
        }
    }

    /// The value of the `key` entry of the command (see `wstring_value`).
    pub fn extract_wstring_value(&self, key: &str) -> (r: Option<&str>)
        ensures
            match r {
                Some(v) => wstring_value(self.command@, key@) == Some(v@),
                None => wstring_value(self.command@, key@) is None,
            },
    {
        let cmd = chars_of(self.command.as_str());
        let clen = cmd.len();
        let mut tag = chars_of(key);
        let suffix = chars_of("wstring:");
        let ghost tag0 = tag@;
        let mut k: usize = 0;
        while k < suffix.len()
            invariant
                k <= suffix@.len(),
                tag@ == tag0 + suffix@.subrange(0, k as int),
            decreases suffix@.len() - k,
        {
            tag.push(suffix[k]);
            k = k + 1;
            assert(tag@ =~= tag0 + suffix@.subrange(0, k as int));
        }
        assert(suffix@.subrange(0, suffix@.len() as int) =~= suffix@);
        assert(tag@ == key@ + "wstring:"@);
        let p = match find_chars(&cmd, &tag, 0) {
            Some(p) => p,
            None => return None,
        };
        proof {
            lemma_find_from_occurs(cmd@, tag@, 0);
        }
        assert(p + tag@.len() <= cmd@.len());
        let a = p + tag.len();
        proof {
            lemma_digits_end_bounds(cmd@, a as int);
        }
        let mut e = a;
        let mut n: usize = 0;
        while e < cmd.len() && '0' <= cmd[e] && cmd[e] <= '9'
            invariant
                a <= e <= cmd@.len(),
                clen == cmd@.len(),
                cmd@ == self.command@,
                tag@ == key@ + "wstring:"@,
                find_from(cmd@, tag@, 0) == Some(p as int),
                a == p + tag@.len(),
                forall|m: int| a <= m < e ==> is_digit(#[trigger] cmd@[m]),
                digits_end(cmd@, a as int) == digits_end(cmd@, e as int),
                n == digits_value(cmd@, a as int, e as int),
                n <= cmd@.len(),
            decreases cmd@.len() - e,
        {
            let d = (cmd[e] as u32 - '0' as u32) as usize;
            assert(digits_end(cmd@, e as int) == digits_end(cmd@, e + 1));
            if n > clen / 10 || d > clen - n * 10 {
                proof {
                    let fe = digits_end(cmd@, a as int);
                    lemma_digits_end_bounds(cmd@, e as int + 1);
                    assert(digits_value(cmd@, a as int, e + 1) == n * 10 + d);
                    if n > clen / 10 {
                        assert(n * 10 + d > clen) by (nonlinear_arith)
                            requires n > clen / 10, d >= 0;
                    } else {
                        assert(n * 10 <= clen) by (nonlinear_arith)
                            requires n <= clen / 10;
                    }
                    lemma_digits_value_monotone(cmd@, a as int, e + 1, fe);
                    assert(fe >= e + 1);
                    assert(digits_value(cmd@, a as int, fe) > clen);
                    assert(wstring_value(self.command@, key@) is None);
                }
                return None;
            }
            assert(n * 10 <= clen) by (nonlinear_arith)
                requires n <= clen / 10;
            n = n * 10 + d;
            e = e + 1;
        }
        if e == a || e >= cmd.len() || cmd[e] != ':' {
            return None;
        }
        if n > cmd.len() - e - 1 {
            return None;
        }
        Some(self.command.as_str().substring_char(e + 1, e + 1 + n))
    }

    /// The guide text shown in an empty click-here field.
    pub fn guide_text(&self) -> (r: Option<&str>)
        ensures
            match r {
                Some(v) => guide_of(self.command@) == Some(v@),
                None => guide_of(self.command@) is None,
            },
    {
        self.extract_wstring_value("Direction:")
    }

    /// The memo of a click-here field: its `HelpState` entry.
    pub fn memo_text(&self) -> (r: Option<&str>)
        ensures
            match r {
                Some(v) => memo_of(self.command@) == Some(v@),
                None => memo_of(self.command@) is None,
            },
    {
        self.extract_wstring_value("HelpState:")
    }

    /// The command of a click-here field with guide text `guide`, memo
    /// `memo` and, where it is not empty, name `name` (see
    /// `clickhere_command`).
    pub fn build_clickhere_command(guide: &str, memo: &str, name: &str) -> (r: String)
        ensures
            r@ == clickhere_command(guide@, memo@, name@),
    {
        let mut c = String::from_str("Direction:wstring:");
        push_decimal(&mut c, chars_of(guide).len() as u64);
        c.append(":");
        c.append(guide);
        c.append(" HelpState:wstring:");
        push_decimal(&mut c, chars_of(memo).len() as u64);
        c.append(":");
        c.append(memo);
        let nl = chars_of(name).len();
        if nl > 0 {
            c.append(" Name:wstring:");
            push_decimal(&mut c, nl as u64);
            c.append(":");
            c.append(name);
        }
        c
    }

    /// The name of the field's kind.
    pub fn field_type_str(&self) -> (r: &'static str)
        ensures
            r@ == field_type_name(self.field_type),
    {
        match self.field_type {
            FieldType::Unknown => "Unknown",
            FieldType::Date => "Date",
            FieldType::DocDate => "DocDate",
            FieldType::Path => "Path",
            FieldType::Bookmark => "Bookmark",
            FieldType::MailMerge => "MailMerge",
            FieldType::CrossRef => "CrossRef",
            FieldType::Formula => "Formula",
            FieldType::ClickHere => "ClickHere",
            FieldType::Summary => "Summary",
            FieldType::UserInfo => "UserInfo",
            FieldType::Hyperlink => "Hyperlink",
            FieldType::Memo => "Memo",
            FieldType::PrivateInfoSecurity => "PrivateInfoSecurity",
            FieldType::TableOfContents => "TableOfContents",
        }
    }

    /// The field's name (from its CTRL_DATA record), if it has one.
    pub fn field_name(&self) -> (r: Option<&str>)
        ensures
            match r {
                Some(n) => self@.ctrl_data_name == Some(n@),
                None => self@.ctrl_data_name is None,
            },
    {
        match &self.ctrl_data_name {
            Some(n) => Some(n.as_str()),
            None => None,
        }
    }
}

/// The value of the `KEY:wstring:N:VALUE` entry of a field command: the
/// first occurrence of `key` followed by `wstring:`, then a decimal count
/// `N`, a colon, and the `N` characters that follow.
pub open spec fn wstring_value(cmd: Seq<char>, key: Seq<char>) -> Option<Seq<char>> {
    let tag = key + "wstring:"@;
    match find_from(cmd, tag, 0) {
        None => None,
        Some(p) => {
            let a = p + tag.len();
            let e = digits_end(cmd, a);
            if e == a || e >= cmd.len() || cmd[e] != ':' {
                None
            } else {
                let n = digits_value(cmd, a, e);
                if e + 1 + n <= cmd.len() {
                    Some(cmd.subrange(e + 1, e + 1 + n))
                } else {
                    None
                }
            }
        },
    }
}

/// The guide text of a field command: its `Direction` entry.
pub open spec fn guide_of(cmd: Seq<char>) -> Option<Seq<char>> {
    wstring_value(cmd, "Direction:"@)
}

/// The memo of a field command: its `HelpState` entry.
pub open spec fn memo_of(cmd: Seq<char>) -> Option<Seq<char>> {
    wstring_value(cmd, "HelpState:"@)
}

/// The command of a click-here field: its guide text as the
/// `Direction:wstring:N:...` entry, a space, its memo as the
/// `HelpState:wstring:N:...` entry, then, where `name` is not empty, a space
/// and its `Name:wstring:N:...` entry (`N` the number of characters).
pub open spec fn clickhere_command(guide: Seq<char>, memo: Seq<char>, name: Seq<char>) -> Seq<char> {
    "Direction:wstring:"@ + decimal(guide.len()) + ":"@ + guide + " HelpState:wstring:"@ + decimal(memo.len()) + ":"@
        + memo + if name.len() == 0 {
        Seq::empty()
    } else {
        " Name:wstring:"@ + decimal(name.len()) + ":"@ + name
    }
}

/// The name of a field kind.
pub open spec fn field_type_name(t: FieldType) -> Seq<char> {
    match t {
        FieldType::Unknown => "Unknown"@,
        FieldType::Date => "Date"@,
        FieldType::DocDate => "DocDate"@,
        FieldType::Path => "Path"@,
        FieldType::Bookmark => "Bookmark"@,
        FieldType::MailMerge => "MailMerge"@,
        FieldType::CrossRef => "CrossRef"@,
        FieldType::Formula => "Formula"@,
        FieldType::ClickHere => "ClickHere"@,
        FieldType::Summary => "Summary"@,
        FieldType::UserInfo => "UserInfo"@,
        FieldType::Hyperlink => "Hyperlink"@,
        FieldType::Memo => "Memo"@,
        FieldType::PrivateInfoSecurity => "PrivateInfoSecurity"@,
        FieldType::TableOfContents => "TableOfContents"@,
    }
}

proof fn lemma_digits_value_monotone(s: Seq<char>, i: int, j: int, k: int)
    requires
        i <= j <= k,
    ensures
        digits_value(s, i, j) <= digits_value(s, i, k),
    decreases k - j,
{
    if j < k {
        lemma_digits_value_monotone(s, i, j, k - 1);
    }
}

proof fn lemma_digits_end_bounds(s: Seq<char>, i: int)
    requires
        0 <= i,
    ensures
        i <= digits_end(s, i),
        digits_end(s, i) <= s.len() || digits_end(s, i) == i,
        forall|m: int| i <= m < digits_end(s, i) ==> is_digit(#[trigger] s[m]),
        digits_end(s, i) < s.len() ==> !is_digit(s[digits_end(s, i)]),
    decreases s.len() - i,
{
    if i < s.len() && is_digit(s[i]) {
        lemma_digits_end_bounds(s, i + 1);
    }
}

/// Column definition control.
#[derive(Debug, Clone, Copy, PartialEq, Eq, Default)]
pub struct ColumnDef {
    pub column_count: u16,
    pub spacing: i16,
}

/// A control embedded in a paragraph.
#[derive(Debug)]
pub enum Control {
    ColumnDef(ColumnDef),
    Field(Field),
    Table(Box<Table>),
    Shape(Box<ShapeObject>),
    Picture(Box<Picture>),
}

} // verus!
