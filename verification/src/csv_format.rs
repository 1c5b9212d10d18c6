//! CSV text: how records are written (the `csv` crate's default writer:
//! `,` between fields, `\n` after each record, quotes only where needed,
//! quotes inside a quoted field doubled) and how such text reads back.
use vstd::prelude::*;

verus! {

/// A character that forces a field into quotes.
pub open spec fn is_csv_special(c: char) -> bool {
    c == ',' || c == '"' || c == '\r' || c == '\n'
}

/// A field that must be quoted: it holds a delimiter, a quote or a line end.
pub open spec fn needs_quotes(f: Seq<char>) -> bool {
    exists|i: int| 0 <= i < f.len() && is_csv_special(#[trigger] f[i])
}

/// `f` with each quote doubled.
pub open spec fn double_quotes(f: Seq<char>) -> Seq<char>
    decreases f.len(),
{
    if f.len() == 0 {
        Seq::empty()
    } else if f[0] == '"' {
        seq!['"', '"'] + double_quotes(f.drop_first())
    } else {
        seq![f[0]] + double_quotes(f.drop_first())
    }
}

/// The text of one field.
pub open spec fn csv_field(f: Seq<char>) -> Seq<char> {
    if needs_quotes(f) {
        seq!['"'] + double_quotes(f) + seq!['"']
    } else {
        f
    }
}

/// The texts of `fields` with `,` between them.
pub open spec fn csv_join(fields: Seq<Seq<char>>) -> Seq<char>
    decreases fields.len(),
{
    if fields.len() == 0 {
        Seq::empty()
    } else if fields.len() == 1 {
        csv_field(fields[0])
    } else {
        csv_field(fields[0]) + seq![','] + csv_join(fields.drop_first())
    }
}

/// The line of one record; a record with no fields, or with one empty
/// field, is written as `""`.
pub open spec fn csv_line(rec: Seq<Seq<char>>) -> Seq<char> {
    if rec.len() == 0 || (rec.len() == 1 && rec[0].len() == 0) {
        seq!['"', '"', '\n']
    } else {
        csv_join(rec) + seq!['\n']
    }
}

/// The CSV text of `records`.
pub open spec fn csv_text(records: Seq<Seq<Seq<char>>>) -> Seq<char>
    decreases records.len(),
{
    if records.len() == 0 {
        Seq::empty()
    } else {
        csv_line(records[0]) + csv_text(records.drop_first())
    }
}

/// Where a CSV reader stands within a field.
pub enum ReadState {
    /// At the start of a field.
    FieldStart,
    /// Inside a field without quotes.
    Unquoted,
    /// Inside a quoted field.
    Quoted,
    /// Just after a quote inside a quoted field.
    QuoteSeen,
}

/// The records that reading `text` gives, from state `st` with the field
/// `field` and the record `rec` begun and the records `recs` complete.
/// Fields end at `,`, records at `\n`; a field that begins with a quote
/// runs to the next single quote, in which a doubled quote stands for one.
pub open spec fn csv_read(
    st: ReadState,
    field: Seq<char>,
    rec: Seq<Seq<char>>,
    recs: Seq<Seq<Seq<char>>>,
    text: Seq<char>,
) -> Seq<Seq<Seq<char>>>
    decreases text.len(),
{
    if text.len() == 0 {
        if st is FieldStart && field.len() == 0 && rec.len() == 0 {
            recs
        } else {
            recs.push(rec.push(field))
        }
    } else {
        let c = text[0];
        let t = text.drop_first();
        match st {
            ReadState::Quoted => if c == '"' {
                csv_read(ReadState::QuoteSeen, field, rec, recs, t)
            } else {
                csv_read(ReadState::Quoted, field.push(c), rec, recs, t)
            },
            _ => if c == ',' {
                csv_read(ReadState::FieldStart, Seq::empty(), rec.push(field), recs, t)
            } else if c == '\n' {
                csv_read(ReadState::FieldStart, Seq::empty(), Seq::empty(), recs.push(rec.push(field)), t)
            } else if c == '"' && st is FieldStart {
                csv_read(ReadState::Quoted, field, rec, recs, t)
            } else if c == '"' && st is QuoteSeen {
                csv_read(ReadState::Quoted, field.push('"'), rec, recs, t)
            } else {
                csv_read(ReadState::Unquoted, field.push(c), rec, recs, t)
            },
        }
    }
}

/// The records that reading the whole of `text` gives.
pub open spec fn csv_read_all(text: Seq<char>) -> Seq<Seq<Seq<char>>> {
    csv_read(ReadState::FieldStart, Seq::empty(), Seq::empty(), Seq::empty(), text)
}

/// What the reader does on the character `c` (`,` or `\n`) that ends the
/// field `field`.
pub open spec fn after_field(
    c: char,
    field: Seq<char>,
    rec: Seq<Seq<char>>,
    recs: Seq<Seq<Seq<char>>>,
    rest: Seq<char>,
) -> Seq<Seq<Seq<char>>> {
    if c == ',' {
        csv_read(ReadState::FieldStart, Seq::empty(), rec.push(field), recs, rest)
    } else {
        csv_read(ReadState::FieldStart, Seq::empty(), Seq::empty(), recs.push(rec.push(field)), rest)
    }
}

/// A record that its CSV line gives back: one with a field that is not the
/// only, empty one.
pub open spec fn readable_record(rec: Seq<Seq<char>>) -> bool {
    rec.len() >= 1 && !(rec.len() == 1 && rec[0].len() == 0)
}

proof fn lemma_read_unquoted(
    st: ReadState,
    field: Seq<char>,
    rec: Seq<Seq<char>>,
    recs: Seq<Seq<Seq<char>>>,
    s: Seq<char>,
    c: char,
    rest: Seq<char>,
)
    requires
        st is FieldStart || st is Unquoted,
        forall|i: int| 0 <= i < s.len() ==> !is_csv_special(#[trigger] s[i]),
        c == ',' || c == '\n',
    ensures
        csv_read(st, field, rec, recs, s + seq![c] + rest) == after_field(c, field + s, rec, recs, rest),
    decreases s.len(),
{
    let text = s + seq![c] + rest;
    if s.len() == 0 {
        assert(text =~= seq![c] + rest);
        assert(text.drop_first() =~= rest);
        assert(field + s =~= field);
    } else {
        assert(text[0] == s[0]);
        assert(!is_csv_special(s[0]));
        assert(text.drop_first() =~= s.drop_first() + seq![c] + rest);
        assert forall|i: int| 0 <= i < s.drop_first().len() implies !is_csv_special(
            #[trigger] s.drop_first()[i],
        ) by {
            assert(s.drop_first()[i] == s[i + 1]);
        }
        lemma_read_unquoted(ReadState::Unquoted, field.push(s[0]), rec, recs, s.drop_first(), c, rest);
        assert(field.push(s[0]) + s.drop_first() =~= field + s);
    }
}

proof fn lemma_read_quoted(
    field: Seq<char>,
    rec: Seq<Seq<char>>,
    recs: Seq<Seq<Seq<char>>>,
    g: Seq<char>,
    c: char,
    rest: Seq<char>,
)
    requires
        c == ',' || c == '\n',
    ensures
        csv_read(ReadState::Quoted, field, rec, recs, double_quotes(g) + seq!['"', c] + rest)
            == after_field(c, field + g, rec, recs, rest),
    decreases g.len(),
{
    let text = double_quotes(g) + seq!['"', c] + rest;
    if g.len() == 0 {
        assert(double_quotes(g) =~= Seq::<char>::empty());
        assert(text =~= seq!['"', c] + rest);
        assert(text[0] == '"');
        assert(text.drop_first() =~= seq![c] + rest);
        assert((seq![c] + rest)[0] == c);
        assert((seq![c] + rest).drop_first() =~= rest);
        assert(csv_read(ReadState::QuoteSeen, field, rec, recs, seq![c] + rest) == after_field(
            c,
            field,
            rec,
            recs,
            rest,
        ));
        assert(field + g =~= field);
    } else if g[0] == '"' {
        let inner = double_quotes(g.drop_first()) + seq!['"', c] + rest;
        assert(text =~= seq!['"', '"'] + inner);
        assert(text[0] == '"');
        assert(text.drop_first() =~= seq!['"'] + inner);
        assert((seq!['"'] + inner)[0] == '"');
        assert((seq!['"'] + inner).drop_first() =~= inner);
        assert(csv_read(ReadState::QuoteSeen, field, rec, recs, seq!['"'] + inner) == csv_read(
            ReadState::Quoted,
            field.push('"'),
            rec,
            recs,
            inner,
        ));
        lemma_read_quoted(field.push('"'), rec, recs, g.drop_first(), c, rest);
        assert(field.push('"') + g.drop_first() =~= field + g);
    } else {
        let inner = double_quotes(g.drop_first()) + seq!['"', c] + rest;
        assert(text =~= seq![g[0]] + inner);
        assert(text[0] == g[0]);
        assert(text.drop_first() =~= inner);
        lemma_read_quoted(field.push(g[0]), rec, recs, g.drop_first(), c, rest);
        assert(field.push(g[0]) + g.drop_first() =~= field + g);
    }
}

proof fn lemma_read_field(
    rec: Seq<Seq<char>>,
    recs: Seq<Seq<Seq<char>>>,
    f: Seq<char>,
    c: char,
    rest: Seq<char>,
)
    requires
        c == ',' || c == '\n',
    ensures
        csv_read(ReadState::FieldStart, Seq::empty(), rec, recs, csv_field(f) + seq![c] + rest)
            == after_field(c, f, rec, recs, rest),
{
    if needs_quotes(f) {
        let text = csv_field(f) + seq![c] + rest;
        let inner = double_quotes(f) + seq!['"', c] + rest;
        assert(text =~= seq!['"'] + inner);
        assert(text.drop_first() =~= inner);
        lemma_read_quoted(Seq::empty(), rec, recs, f, c, rest);
        assert(Seq::<char>::empty() + f =~= f);
    } else {
        assert forall|i: int| 0 <= i < f.len() implies !is_csv_special(#[trigger] f[i]) by {}
        lemma_read_unquoted(ReadState::FieldStart, Seq::empty(), rec, recs, f, c, rest);
        assert(Seq::<char>::empty() + f =~= f);
    }
}

proof fn lemma_read_join(
    acc: Seq<Seq<char>>,
    recs: Seq<Seq<Seq<char>>>,
    fields: Seq<Seq<char>>,
    rest: Seq<char>,
)
    requires
        fields.len() >= 1,
    ensures
        csv_read(ReadState::FieldStart, Seq::empty(), acc, recs, csv_join(fields) + seq!['\n'] + rest)
            == csv_read(ReadState::FieldStart, Seq::empty(), Seq::empty(), recs.push(acc + fields), rest),
    decreases fields.len(),
{
    if fields.len() == 1 {
        lemma_read_field(acc, recs, fields[0], '\n', rest);
        assert(acc.push(fields[0]) =~= acc + fields);
    } else {
        let tail = csv_join(fields.drop_first()) + seq!['\n'] + rest;
        assert(csv_join(fields) + seq!['\n'] + rest =~= csv_field(fields[0]) + seq![','] + tail);
        lemma_read_field(acc, recs, fields[0], ',', tail);
        lemma_read_join(acc.push(fields[0]), recs, fields.drop_first(), rest);
        assert(acc.push(fields[0]) + fields.drop_first() =~= acc + fields);
    }
}

proof fn lemma_read_text(recs: Seq<Seq<Seq<char>>>, rows: Seq<Seq<Seq<char>>>)
    requires
        forall|k: int| 0 <= k < rows.len() ==> readable_record(#[trigger] rows[k]),
    ensures
        csv_read(ReadState::FieldStart, Seq::empty(), Seq::empty(), recs, csv_text(rows)) == recs + rows,
    decreases rows.len(),
{
    if rows.len() == 0 {
        assert(recs + rows =~= recs);
    } else {
        let rest = csv_text(rows.drop_first());
        assert(readable_record(rows[0]));
        assert(csv_text(rows) =~= csv_join(rows[0]) + seq!['\n'] + rest);
        lemma_read_join(Seq::empty(), recs, rows[0], rest);
        assert(Seq::<Seq<char>>::empty() + rows[0] =~= rows[0]);
        assert forall|k: int| 0 <= k < rows.drop_first().len() implies readable_record(
            #[trigger] rows.drop_first()[k],
        ) by {
            assert(rows.drop_first()[k] == rows[k + 1]);
        }
        lemma_read_text(recs.push(rows[0]), rows.drop_first());
        assert(recs.push(rows[0]) + rows.drop_first() =~= recs + rows);
    }
}

/// CSV text reads back as the records written, whatever their fields hold
/// (delimiters, quotes and line ends included), for records that have a
/// field other than a lone empty one.
pub proof fn lemma_csv_reads_back(rows: Seq<Seq<Seq<char>>>)
    requires
        forall|k: int| 0 <= k < rows.len() ==> readable_record(#[trigger] rows[k]),
    ensures
        csv_read_all(csv_text(rows)) == rows,
{
    lemma_read_text(Seq::empty(), rows);
    assert(Seq::<Seq<Seq<char>>>::empty() + rows =~= rows);
}

} // verus!
