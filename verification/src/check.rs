//! Collecting every field's failure instead of stopping at the first one,
//! and the single message that lists them all.

use vstd::prelude::*;

use crate::error::{EnvLockError, ErrorView, contains_text};
use crate::text::{decimal, decimal_string};

verus! {

/// The errors of the fields read so far, in the order the fields were read.
pub struct ErrorCollector {
    errors: Vec<EnvLockError>,
}

impl ErrorCollector {
    /// The errors collected so far.
    pub closed spec fn collected(&self) -> Seq<ErrorView> {
        self.errors@.map_values(|e: EnvLockError| e@)
    }

    /// A collector that holds no error.
    pub fn new() -> (r: Self)
        ensures
            r.collected() == Seq::<ErrorView>::empty(),
    {
        let r = ErrorCollector { errors: Vec::new() };
        assert(r.collected() =~= Seq::<ErrorView>::empty());
        r
    }

    /// Note the outcome of one field: its value is handed back, and its
    /// error, if it failed, is kept.
    pub fn record<T>(&mut self, r: Result<T, EnvLockError>) -> (v: Option<T>)
        ensures
            match r {
                Ok(x) => v == Some(x) && final(self).collected() == old(self).collected(),
                Err(e) => v is None && final(self).collected() == old(self).collected().push(e@),
            },
    {
        match r {
            Ok(x) => Some(x),
            Err(e) => {
                let ghost before = self.collected();
                self.errors.push(e);
                assert(self.collected() =~= before.push(e@));
                None
            },
        }
    }

    /// `Ok` when no field failed, else every error collected, in order.
    pub fn finish(self) -> (r: Result<(), Vec<EnvLockError>>)
        ensures
            r is Ok <==> self.collected().len() == 0,
            r matches Err(v) ==> v@.map_values(|e: EnvLockError| e@) == self.collected(),
    {
        if self.errors.len() == 0 {
            Ok(())
        } else {
            Err(self.errors)
        }
    }
}

/// The lines `"  - "` + error text, one per error, joined by newlines.
pub open spec fn report_lines(es: Seq<ErrorView>) -> Seq<char>
    decreases es.len(),
{
    if es.len() == 0 {
        Seq::empty()
    } else if es.len() == 1 {
        "  - "@ + es[0].display()
    } else {
        report_lines(es.drop_last()) + "\n"@ + "  - "@ + es.last().display()
    }
}

/// The message that lists all the errors of a failed check: their count,
/// then one line per error.
pub open spec fn report_text(es: Seq<ErrorView>) -> Seq<char> {
    decimal(es.len()) + " configuration error(s):\n"@ + report_lines(es)
}

/// The message that lists every error of a failed check.
pub fn check_report(errors: &Vec<EnvLockError>) -> (r: String)
    ensures
        r@ == report_text(errors@.map_values(|e: EnvLockError| e@)),
{
    let ghost es = errors@.map_values(|e: EnvLockError| e@);
    let mut lines = String::new();
    let mut i: usize = 0;
    assert(es.take(0) =~= Seq::<ErrorView>::empty());
    while i < errors.len()
        invariant
            0 <= i <= errors.len(),
            es == errors@.map_values(|e: EnvLockError| e@),
            lines@ == report_lines(es.take(i as int)),
        decreases errors.len() - i,
    {
        assert(es.take(i + 1).drop_last() =~= es.take(i as int));
        assert(es.take(i + 1).last() == errors@[i as int]@);
        if i > 0 {
            lines.append("\n");
        }
        lines.append("  - ");
        let text = errors[i].to_string();
        lines.append(text.as_str());
        assert(i == 0 ==> es.take(i + 1) =~= seq![es[0]]);
        i = i + 1;
    }
    assert(es.take(errors.len() as int) =~= es);
    let mut r = decimal_string(errors.len());
    r.append(" configuration error(s):\n");
    r.append(lines.as_str());
    r
}

/// The lines of a report show every error's text.
pub proof fn lemma_lines_show_every_error(es: Seq<ErrorView>, k: int)
    requires
        0 <= k < es.len(),
    ensures
        contains_text(report_lines(es), es[k].display()),
    decreases es.len(),
{
    let d = es[k].display();
    if es.len() == 1 {
        let p = "  - "@;
        assert(report_lines(es).subrange(p.len() as int, (p.len() + d.len()) as int) =~= d);
    } else if k == es.len() - 1 {
        let l = report_lines(es);
        let p = report_lines(es.drop_last()) + "\n"@ + "  - "@;
        assert(l.subrange(p.len() as int, (p.len() + d.len()) as int) =~= d);
    } else {
        lemma_lines_show_every_error(es.drop_last(), k);
        let inner = report_lines(es.drop_last());
        let i = choose|i: int|
            0 <= i <= inner.len() - d.len() && #[trigger] inner.subrange(i, i + d.len()) == d;
        assert(report_lines(es).subrange(i, i + d.len()) =~= inner.subrange(i, i + d.len()));
    }
}

/// The message of a failed check shows the text of every error it lists.
pub proof fn lemma_report_shows_every_error(es: Seq<ErrorView>, k: int)
    requires
        0 <= k < es.len(),
    ensures
        contains_text(report_text(es), es[k].display()),
{
    lemma_lines_show_every_error(es, k);
    let d = es[k].display();
    let inner = report_lines(es);
    let p = decimal(es.len()) + " configuration error(s):\n"@;
    let i = choose|i: int|
        0 <= i <= inner.len() - d.len() && #[trigger] inner.subrange(i, i + d.len()) == d;
    assert(report_text(es).subrange(p.len() + i, p.len() + i + d.len()) =~= inner.subrange(
        i,
        i + d.len(),
    ));
}

} // verus!
