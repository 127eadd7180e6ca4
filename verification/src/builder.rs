use vstd::prelude::*;

use crate::claims::{Claim, ClaimValueV};
use crate::codec::{encode_token, opt_bytes, spec_decode};
use crate::errors::TokenError;
use crate::json::{all_renderable, json_of, render_payload};
use crate::keys::SharedKey;
use crate::registry::{distinct_keys, entries_map, ClaimRegistry};
use core::marker::PhantomData;

verus! {

/// Collects claims and an optional footer, and builds them into one encoded
/// token: the claims become one canonical JSON object, which is sealed
/// together with the footer under a shared key.  Building drains the claims,
/// so one builder produces one token per filling.
pub struct TokenBuilder<Version, Purpose> {
    version: PhantomData<Version>,
    purpose: PhantomData<Purpose>,
    claims: ClaimRegistry,
    footer: Option<Vec<u8>>,
}

impl<Version, Purpose> TokenBuilder<Version, Purpose> {
    /// The registered claims, in their internal order.
    pub closed spec fn entries(self) -> Seq<(Seq<char>, ClaimValueV)> {
        self.claims.entries()
    }

    /// The registered claims as a map: what the builder will render.
    pub open spec fn claims_map(self) -> Map<Seq<char>, ClaimValueV> {
        entries_map(self.entries())
    }

    /// The bytes of the footer; no footer stands for no bytes.
    pub closed spec fn footer_bytes(self) -> Seq<u8> {
        opt_bytes(self.footer)
    }

    /// Claim keys are unique at all times.
    pub open spec fn wf(self) -> bool {
        distinct_keys(self.entries())
    }

    /// A fresh builder: no claims, no footer.
    pub fn new() -> (r: TokenBuilder<Version, Purpose>)
        ensures
            r.wf(),
            r.entries() == Seq::<(Seq<char>, ClaimValueV)>::empty(),
            r.claims_map() == Map::<Seq<char>, ClaimValueV>::empty(),
            r.footer_bytes() == Seq::<u8>::empty(),
    {
        TokenBuilder {
            version: PhantomData,
            purpose: PhantomData,
            claims: ClaimRegistry::new(),
            footer: None,
        }
    }

    /// Register a claim under its key; always succeeds, and a claim already
    /// registered under the same key is replaced by this one.
    pub fn set_claim(&mut self, claim: Claim)
        requires
            old(self).wf(),
        ensures
            final(self).wf(),
            final(self).claims_map() == old(self).claims_map().insert(claim@.0, claim@.1),
            final(self).footer_bytes() == old(self).footer_bytes(),
    {
        self.claims.set(claim);
    }

    /// Attach or replace the footer; `None` clears it.
    pub fn set_footer(&mut self, footer: Option<Vec<u8>>)
        ensures
            final(self).entries() == old(self).entries(),
            final(self).claims_map() == old(self).claims_map(),
            final(self).wf() == old(self).wf(),
            final(self).footer_bytes() == opt_bytes(footer),
    {
        self.footer = footer;
    }

    /// Build the token: drain the claims, merge them into the canonical JSON
    /// payload, and seal payload and footer under the key.  The token decodes,
    /// under the same footer and key, to exactly that payload.  A claim that
    /// cannot be rendered aborts the build before the codec runs; a codec
    /// failure is passed on unchanged.  Either way the claims are drained and
    /// the footer is kept.
    pub fn build(&mut self, key: &SharedKey) -> (r: Result<String, TokenError>)
        requires
            old(self).wf(),
            key.wf(),
        ensures
            final(self).wf(),
            final(self).entries() == Seq::<(Seq<char>, ClaimValueV)>::empty(),
            final(self).claims_map() == Map::<Seq<char>, ClaimValueV>::empty(),
            final(self).footer_bytes() == old(self).footer_bytes(),
            r matches Ok(t) ==> all_renderable(old(self).entries()) && spec_decode(
                t@,
                old(self).footer_bytes(),
                key@,
            ) == Ok::<_, TokenError>(json_of(old(self).entries())),
            (r matches Err(e) && e == TokenError::ClaimSerialization) <==> !all_renderable(
                old(self).entries(),
            ),
            r matches Err(e) ==> e == TokenError::ClaimSerialization || e == TokenError::Codec,
    {
        let drained = self.claims.drain();
        let payload = match render_payload(&drained) {
            Ok(p) => p,
            Err(e) => {
                return Err(e);
            },
        };
        let empty_footer: Vec<u8> = Vec::new();
        let footer_ref: &Vec<u8> = match &self.footer {
            Some(f) => f,
            None => &empty_footer,
        };
        assert(footer_ref@ == old(self).footer_bytes());
        match encode_token(&payload, footer_ref, key) {
            Ok(t) => Ok(t),
            Err(_) => Err(TokenError::Codec),
        }
    }
}

impl<Version, Purpose> Default for TokenBuilder<Version, Purpose> {
    /// The same fresh builder as `new`.
    fn default() -> (r: TokenBuilder<Version, Purpose>)
        ensures
            r.wf(),
            r.entries() == Seq::<(Seq<char>, ClaimValueV)>::empty(),
            r.claims_map() == Map::<Seq<char>, ClaimValueV>::empty(),
            r.footer_bytes() == Seq::<u8>::empty(),
    {
        TokenBuilder::new()
    }
}

} // verus!
