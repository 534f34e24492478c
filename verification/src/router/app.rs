//! Process-wide registration state.
//!
//! Two string indexes bind names to tokens: `names` from name to token
//! and `auth` from token back to name.  They mirror each other, and
//! registration is exclusive: checking a name and inserting both entries
//! happen in one call, so a name holds at most one live token.

use vstd::prelude::*;
use crate::strmap::StrMap;
use crate::varmap::Varmap;
use crate::text::{ascii_bytes, chars_wf, value_wf};

verus! {

/// Shared application state: the two registration indexes and the
/// extension attachments handed to the router at construction.
#[derive(Debug)]
pub struct App {
    /// Token to name.
    pub auth: StrMap,
    /// Name to token.
    pub names: StrMap,
    /// Attachments readable by every stage.
    pub extension: Varmap,
}

/// Relies on uuid's `Uuid::new_v4` and its hyphenated text form: 36
/// characters of lowercase hex digits and hyphens, ASCII throughout.
#[verifier::external_body]
pub(crate) fn fresh_token() -> (r: String)
    ensures
        r@.len() == 36,
        chars_wf(r@),
        value_wf(ascii_bytes(r@)),
{
    uuid::Uuid::new_v4().to_string()
}

impl App {
    /// The two indexes mirror each other exactly.
    pub open spec fn wf(&self) -> bool {
        &&& self.names.wf()
        &&& self.auth.wf()
        &&& forall|n: Seq<char>, t: Seq<char>|
            #![trigger self.names.spec_get(n), self.auth.spec_get(t)]
            self.names.spec_get(n) == Some(t) <==> self.auth.spec_get(t) == Some(n)
    }

    pub fn new(extension: Varmap) -> (app: App)
        ensures
            app.wf(),
            forall|n: Seq<char>| app.names.spec_get(n) is None,
            forall|t: Seq<char>| app.auth.spec_get(t) is None,
            app.extension == extension,
    {
        let app = App { auth: StrMap::new(), names: StrMap::new(), extension };
        proof {
            assert forall|n: Seq<char>| app.names.spec_get(n) is None by {
                crate::strmap::lemma_lookup_none(app.names.spec_pairs(), n);
            }
            assert forall|t: Seq<char>| app.auth.spec_get(t) is None by {
                crate::strmap::lemma_lookup_none(app.auth.spec_pairs(), t);
            }
        }
        app
    }

    /// Registers a name: when the name is free, a fresh random token is
    /// drawn and both indexes take the pair in one step.  A taken name is
    /// refused; so, to keep the indexes mirrored, is the astronomically
    /// unlikely draw of a token already bound to another name.  Those are
    /// the only refusals: on a state whose reverse index is empty, a free
    /// name is owed its token.
    pub fn register(&mut self, name: String) -> (r: Result<String, ()>)
        requires
            old(self).wf(),
        ensures
            final(self).wf(),
            final(self).extension == old(self).extension,
            old(self).names.spec_get(name@) is Some ==> r is Err,
            r is Err ==> old(self).names.spec_get(name@) is Some || (exists|t: Seq<char>|
                (#[trigger] old(self).auth.spec_get(t)) is Some),
            match r {
                Ok(token) => {
                    &&& old(self).names.spec_get(name@) is None
                    &&& old(self).auth.spec_get(token@) is None
                    &&& token@.len() == 36
                    &&& chars_wf(token@)
                    &&& value_wf(ascii_bytes(token@))
                    &&& final(self).names.spec_get(name@) == Some(token@)
                    &&& final(self).auth.spec_get(token@) == Some(name@)
                    &&& forall|n: Seq<char>|
                        n != name@ ==> final(self).names.spec_get(n) == old(self).names.spec_get(
                            n,
                        )
                    &&& forall|t: Seq<char>|
                        t != token@ ==> final(self).auth.spec_get(t) == old(self).auth.spec_get(t)
                },
                Err(_) => *final(self) == *old(self),
            },
    {
        let token = fresh_token();
        self.register_with_token(name, token)
    }

    /// Completes a registration under a given token: the pair goes into
    /// both indexes exactly when both the name and the token are free.
    pub fn register_with_token(&mut self, name: String, token: String) -> (r: Result<String, ()>)
        requires
            old(self).wf(),
        ensures
            final(self).wf(),
            final(self).extension == old(self).extension,
            if old(self).names.spec_get(name@) is None && old(self).auth.spec_get(token@)
                is None {
                &&& r is Ok
                &&& r->Ok_0@ == token@
                &&& final(self).names.spec_get(name@) == Some(token@)
                &&& final(self).auth.spec_get(token@) == Some(name@)
                &&& forall|n: Seq<char>|
                    n != name@ ==> final(self).names.spec_get(n) == old(self).names.spec_get(n)
                &&& forall|t: Seq<char>|
                    t != token@ ==> final(self).auth.spec_get(t) == old(self).auth.spec_get(t)
            } else {
                r is Err && *final(self) == *old(self)
            },
    {
        if self.names.contains_key(&name) {
            return Err(());
        }
        if self.auth.contains_key(&token) {
            return Err(());
        }
        let ghost names0 = self.names;
        let ghost auth0 = self.auth;
        self.auth.insert(token.clone(), name.clone());
        self.names.insert(name, token.clone());
        proof {
            assert forall|n: Seq<char>, t: Seq<char>|
                #![trigger self.names.spec_get(n), self.auth.spec_get(t)]
                self.names.spec_get(n) == Some(t) <==> self.auth.spec_get(t) == Some(n) by {
                if n == name@ {
                    if t != token@ {
                        if auth0.spec_get(t) == Some(n) {
                            assert(names0.spec_get(n) == Some(t));
                            assert(false);
                        }
                    }
                } else {
                    if t == token@ {
                        if names0.spec_get(n) == Some(t) {
                            assert(auth0.spec_get(t) == Some(n));
                            assert(false);
                        }
                    }
                }
            }
        }
        Ok(token)
    }
}

} // verus!
