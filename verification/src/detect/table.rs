//! The list of detected services as it is printed.
use crate::detect::classify;
use crate::detect::classify::{DetectedService, ServiceModel};
use crate::text::chars;
use crate::text::chars::chars_of;
use crate::text::number;
use crate::text::number::{to_decimal, to_signed_decimal};
use vstd::prelude::*;

verus! {

/// `s` with blanks behind it up to a width in characters.
pub open spec fn padded(s: Seq<char>, width: nat) -> Seq<char> {
    if s.len() < width {
        s + Seq::new((width - s.len()) as nat, |i: int| ' ')
    } else {
        s
    }
}

/// A row of the list of services.
pub open spec fn row(
    number: Seq<char>,
    name: Seq<char>,
    port: Seq<char>,
    role: Seq<char>,
    framework: Seq<char>,
    score: Seq<char>,
    notes: Seq<char>,
) -> Seq<char> {
    padded(number, 4) + " "@ + padded(name, 12) + " "@ + padded(port, 6) + " "@ + padded(role, 10)
        + " "@ + padded(framework, 12) + " "@ + padded(score, 7) + " "@ + notes
}

/// What the list says of a service besides its figures.
pub open spec fn note_on(s: ServiceModel) -> Seq<char> {
    match s.risk_reason {
        Some(reason) => "warning: "@ + reason,
        None => if !s.http_ready {
            "warning: not http"@
        } else {
            "process: "@ + s.process_name
        },
    }
}

/// The row of the service at `index`.
pub open spec fn service_row(index: int, s: ServiceModel) -> Seq<char> {
    row(
        number::decimal((index + 1) as nat),
        s.name,
        number::decimal(s.port as nat),
        s.role,
        s.framework,
        number::signed_decimal(s.score),
        note_on(s),
    )
}

/// The lines of the list of services.
pub open spec fn table_lines(services: Seq<ServiceModel>) -> Seq<Seq<char>> {
    if services.len() == 0 {
        seq!["No listening localhost services detected."@]
    } else {
        seq![
            row("#"@, "name"@, "port"@, "role"@, "framework"@, "score"@, "notes"@),
        ] + Seq::new(services.len(), |i: int| service_row(i, services[i]))
    }
}

/// `s` with blanks behind it up to a width in characters.
pub fn pad(s: &str, width: usize) -> (r: String)
    ensures
        r@ == padded(s@, width as nat),
{
    let mut n: usize = chars_of(s).len();
    let mut out = s.to_owned();
    let ghost len = n as nat;
    while n < width
        invariant
            len == s@.len(),
            len <= n,
            n <= width || n == len,
            out@ =~= s@ + Seq::new((n - len) as nat, |i: int| ' '),
        decreases width - n,
    {
        out.push(' ');
        n += 1;
    }
    assert(out@ =~= padded(s@, width as nat));
    out
}

/// A row of the list of services.
fn write_row(
    number: &str,
    name: &str,
    port: &str,
    role: &str,
    framework: &str,
    score: &str,
    notes: &str,
) -> (r: String)
    ensures
        r@ == row(number@, name@, port@, role@, framework@, score@, notes@),
{
    pad(number, 4).concat(" ").concat(pad(name, 12).as_str()).concat(" ").concat(
        pad(port, 6).as_str(),
    ).concat(" ").concat(pad(role, 10).as_str()).concat(" ").concat(
        pad(framework, 12).as_str(),
    ).concat(" ").concat(pad(score, 7).as_str()).concat(" ").concat(notes)
}

/// What the list says of a service besides its figures.
fn write_note(service: &DetectedService) -> (r: String)
    ensures
        r@ == note_on(service@),
{
    match &service.risk_reason {
        Some(reason) => "warning: ".to_owned().concat(reason.as_str()),
        None => {
            if !service.http_ready {
                "warning: not http".to_owned()
            } else {
                "process: ".to_owned().concat(service.process_name.as_str())
            }
        },
    }
}

/// The lines of the list of services.
pub fn service_table(services: &[DetectedService]) -> (r: Vec<String>)
    ensures
        chars::texts(r@) == table_lines(classify::service_list(services@)),
{
    let ghost all = classify::service_list(services@);
    let mut out: Vec<String> = Vec::new();
    if services.len() == 0 {
        out.push("No listening localhost services detected.".to_owned());
        assert(chars::texts(out@) =~= table_lines(all));
        return out;
    }
    out.push(write_row("#", "name", "port", "role", "framework", "score", "notes"));
    let mut i: usize = 0;
    while i < services.len()
        invariant
            all == classify::service_list(services@),
            0 < services@.len(),
            i <= services@.len(),
            out@.len() == i + 1,
            out@[0]@ == row("#"@, "name"@, "port"@, "role"@, "framework"@, "score"@, "notes"@),
            forall|j: int| 0 <= j < i ==> (#[trigger] out@[j + 1])@ == service_row(j, all[j]),
        decreases services@.len() - i,
    {
        let service = &services[i];
        let ghost before = out@;
        let line = write_row(
            to_decimal(i as u64 + 1).as_str(),
            service.name.as_str(),
            to_decimal(service.port as u64).as_str(),
            service.role.as_str(),
            service.framework.as_str(),
            to_signed_decimal(service.score).as_str(),
            write_note(service).as_str(),
        );
        out.push(line);
        assert forall|j: int| 0 <= j < i + 1 implies (#[trigger] out@[j + 1])@ == service_row(
            j,
            all[j],
        ) by {
            if j < i {
                assert(out@[j + 1] == before[j + 1]);
            }
        }
        i += 1;
    }
    assert forall|j: int| 0 <= j < out@.len() implies (#[trigger] chars::texts(out@)[j])
        == table_lines(all)[j] by {
        if j > 0 {
            assert(out@[(j - 1) + 1]@ == service_row(j - 1, all[j - 1]));
        }
    }
    assert(chars::texts(out@) =~= table_lines(all));
    out
}

} // verus!
