//! Text out of documents: the character data of XML and HTML, and the joining
//! of text pieces that an extractor reports.
use vstd::prelude::*;
use vstd::string::*;

verus! {

#[verifier::external_type_specification]
#[verifier::external_body]
pub struct ExXmlError(xml::reader::Error);

/// A piece of text as a plain value.
pub open spec fn piece_view(o: Option<String>) -> Option<Seq<char>> {
    match o {
        Some(s) => Some(s@),
        None => None,
    }
}

/// What `xml::reader::EventReader` reports for the document `doc`, one entry
/// per event: the text of a `Characters` event, `None` for any other event;
/// `None` overall where the document is malformed.
pub uninterp spec fn xml_event_texts(doc: Seq<u8>) -> Option<Seq<Option<Seq<char>>>>;

/// Relies on `xml::reader::EventReader`: reads events up to the end of the
/// document, or up to the first error, which ends the read.
#[verifier::external_body]
fn read_xml_events(doc: &[u8]) -> (r: Result<Vec<Option<String>>, xml::reader::Error>)
    ensures
        match r {
            Ok(v) => xml_event_texts(doc@) == Some(v@.map_values(|o: Option<String>| piece_view(o))),
            Err(_) => xml_event_texts(doc@) is None,
        },
{
    xml::reader::EventReader::new(doc).into_iter().map(|e| e.map(|ev| match ev {
        xml::reader::XmlEvent::Characters(text) => Some(text),
        _ => None,
    })).collect()
}

/// The text of each piece that is there, each followed by one space.
pub open spec fn spaced(pieces: Seq<Option<Seq<char>>>) -> Seq<char>
    decreases pieces.len(),
{
    if pieces.len() == 0 {
        seq![]
    } else {
        match pieces.last() {
            Some(t) => spaced(pieces.drop_last()) + t + seq![' '],
            None => spaced(pieces.drop_last()),
        }
    }
}

/// Joins the pieces of text that are there, each followed by one space.
pub fn join_pieces(pieces: &Vec<Option<String>>) -> (r: String)
    ensures
        r@ == spaced(pieces@.map_values(|o: Option<String>| piece_view(o))),
{
    proof {
        reveal_strlit("");
    }
    let ghost pv = pieces@.map_values(|o: Option<String>| piece_view(o));
    let mut out = String::from_str("");
    let mut i: usize = 0;
    while i < pieces.len()
        invariant
            i <= pieces@.len(),
            pv == pieces@.map_values(|o: Option<String>| piece_view(o)),
            out@ == spaced(pv.take(i as int)),
        decreases pieces@.len() - i,
    {
        proof {
            reveal_strlit(" ");
            assert(pv.take(i + 1).drop_last() =~= pv.take(i as int));
            assert(pv.take(i + 1).last() == piece_view(pieces@[i as int]));
        }
        match &pieces[i] {
            Some(text) => {
                out.append(text.as_str());
                out.append(" ");
                assert(out@ =~= spaced(pv.take(i + 1)));
            },
            None => {},
        }
        i = i + 1;
    }
    assert(pv.take(i as int) =~= pv);
    out
}

/// The character data of the XML or HTML document `doc`, each run followed by
/// one space; `None` where the document is malformed.
pub fn xml_text(doc: &[u8]) -> (r: Option<String>)
    ensures
        match xml_event_texts(doc@) {
            Some(pieces) => r is Some && r->Some_0@ == spaced(pieces),
            None => r is None,
        },
{
    match read_xml_events(doc) {
        Ok(pieces) => Some(join_pieces(&pieces)),
        Err(_) => None,
    }
}

} // verus!
