//! Parsing loses nothing: every plugin reads any text into a document that
//! serializes back to that text.
use vstd::prelude::*;

use crate::cst::cst_text;
use crate::edit::ConfigPlugin;
use crate::grammar::{Grammar, lemma_doc_lossless, lemma_grammar_covers, parse_doc_spec};
use crate::hosts::{HostsPlugin, document};
use crate::pg_hba::PgHbaPlugin;
use crate::sshd::SshdPlugin;
use crate::ufw::UfwPlugin;

verus! {

/// Parsing loses nothing: the text of the document a grammar makes of
/// `text` is `text`, byte for byte.
pub proof fn lemma_document_lossless(text: Seq<char>, g: Grammar)
    ensures
        cst_text(document(text, parse_doc_spec(text, g))) == text,
{
    lemma_grammar_covers(g, text);
    lemma_doc_lossless(text, g);
}

/// Parsing the serialization of a parsed document gives the same document.
pub proof fn lemma_reparse_is_stable(text: Seq<char>, g: Grammar)
    ensures
        document(
            cst_text(document(text, parse_doc_spec(text, g))),
            parse_doc_spec(cst_text(document(text, parse_doc_spec(text, g))), g),
        ) == document(text, parse_doc_spec(text, g)),
{
    lemma_document_lossless(text, g);
}

/// Every shipped plugin parses losslessly: the document it makes of a text
/// serializes back to that text.
pub proof fn lemma_plugins_are_lossless(
    hosts: HostsPlugin,
    sshd: SshdPlugin,
    pg_hba: PgHbaPlugin,
    ufw: UfwPlugin,
    text: Seq<char>,
)
    ensures
        cst_text(hosts.parsed(text)) == text,
        cst_text(sshd.parsed(text)) == text,
        cst_text(pg_hba.parsed(text)) == text,
        cst_text(ufw.parsed(text)) == text,
{
    lemma_document_lossless(text, Grammar::Hosts);
    lemma_document_lossless(text, Grammar::Sshd);
    lemma_document_lossless(text, Grammar::PgHba);
    lemma_document_lossless(text, Grammar::Ufw);
}

} // verus!
