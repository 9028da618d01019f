//! Agents: the record shape, its request/response shapes, and the handlers.

use crate::db::Db;
use crate::error::AppError;
use crate::error::DtoValidationError;
use crate::traits::byte_len;
use crate::traits::DtoValidator;
use crate::types::Identifier;
use crate::types::IdGen;
use vstd::prelude::*;

verus! {

/// The stored agent record.  The token is a bearer secret: it is exposed at
/// creation time only and never through any read.
#[derive(Debug)]
pub struct AgentInDb {
    pub id: Identifier,
    pub token: Identifier,
    pub name: String,
}

/// An agent as handed back to callers: never the token.
#[derive(Debug)]
pub struct AgentDto {
    pub id: Identifier,
    pub name: String,
}

/// The shape a caller supplies to create an agent.
#[derive(Debug)]
pub struct AgentCreateDto {
    pub name: String,
}

/// The one response that ever carries the token: the creation response.
#[derive(Debug)]
pub struct AgentCreatedDto {
    pub id: Identifier,
    pub token: Identifier,
}

impl DtoValidator for AgentCreateDto {
    /// The name fits in 64 bytes.
    open spec fn valid(&self) -> bool {
        byte_len(self.name@) <= 64
    }

    open spec fn validation_message(&self) -> Seq<char> {
        "name too long (must be <=64)"@
    }

    fn validate(&self) -> (r: Result<(), DtoValidationError>) {
        if self.name.as_str().as_bytes().len() > 64 {
            return Err(DtoValidationError(String::from_str("name too long (must be <=64)")));
        }
        Ok(())
    }
}

impl AgentInDb {
    /// A fresh agent: a newly minted identifier, then a newly minted bearer
    /// token.
    pub fn new(gen: &mut IdGen, name: String) -> (r: AgentInDb)
        ensures
            r == (AgentInDb { id: r.id, token: r.token, name }),
            r.token.value == final(gen).last(),
            r.id.value >= old(gen).last(),
            r.token.value >= r.id.value,
            old(gen).last() < u128::MAX ==> r.id.value > old(gen).last(),
            r.id.value < u128::MAX ==> r.token.value > r.id.value,
    {
        let id = gen.next_id();
        let token = gen.next_id();
        AgentInDb { id, token, name }
    }
}


/// Creates an agent from a validated request: mints the identifier and the
/// bearer token, stores the record, and returns both — the only time the
/// token is ever exposed.  Succeeds on every valid request until the
/// identifier space is spent; rejects exactly the requests whose name
/// exceeds its bound.
pub fn create_agent(db: &mut Db, dto: AgentCreateDto) -> (r: Result<AgentCreatedDto, AppError>)
    requires
        old(db).wf(),
    ensures
        final(db).wf(),
        final(db).tasks == old(db).tasks,
        final(db).completions == old(db).completions,
        final(db).clock == old(db).clock,
        final(db).gen.last() >= old(db).gen.last(),
        match r {
            Ok(created) => dto.valid() && !old(db).agents.as_map().contains_key(created.id.value)
                && final(db).agents.as_map() == old(db).agents.as_map().insert(
                created.id.value,
                (AgentInDb { id: created.id, token: created.token, name: dto.name }),
            ),
            Err(e) => final(db).agents == old(db).agents && (match e {
                AppError::ValidationError(v) => (!dto.valid() && v.0@ == dto.validation_message()
                    && *final(db) == *old(db)) || (dto.valid() && v.0@ == "duplicate id"@ && old(
                    db,
                ).gen.last() == u128::MAX),
                _ => false,
            }),
        },
        dto.valid() && old(db).gen.last() < u128::MAX ==> r is Ok,
{
    match dto.validate() {
        Err(v) => {
            return Err(AppError::ValidationError(v));
        },
        Ok(()) => {},
    }
    let model = AgentInDb::new(&mut db.gen, dto.name);
    let id = model.id;
    let token = model.token;
    match db.agents.insert_new(id, model) {
        Ok(()) => Ok(AgentCreatedDto { id, token }),
        Err(e) => {
            proof {
                if old(db).gen.last() < u128::MAX {
                    assert(id.value > old(db).gen.last());
                    assert(false);
                }
            }
            Err(AppError::from_store(e))
        },
    }
}

/// Reads an agent by identifier; the response never carries the token.
/// Fails exactly when no agent is stored under the identifier.
pub fn read_agent(db: &Db, id: Identifier) -> (r: Result<AgentDto, AppError>)
    requires
        db.wf(),
    ensures
        match r {
            Ok(dto) => db.agents.as_map().contains_key(id.value) && dto.id == id && dto.name
                == db.agents.as_map()[id.value].name,
            Err(e) => !db.agents.as_map().contains_key(id.value) && (e matches
                AppError::ValidationError(v) && v.0@ == "unknown id"@),
        },
{
    match db.agents.read(id) {
        Ok(model) => Ok(AgentDto { id, name: model.name.clone() }),
        Err(e) => Err(AppError::from_store(e)),
    }
}

/// Lists every stored agent, in creation order, without tokens.
pub fn read_all_agents(db: &Db) -> (r: Result<Vec<AgentDto>, AppError>)
    requires
        db.wf(),
    ensures
        match r {
            Ok(v) => v@.len() == db.agents.seq_view().len() && forall|i: int|
                0 <= i < v@.len() ==> (#[trigger] v@[i]).id == db.agents.seq_view()[i].0
                    && v@[i].name == db.agents.seq_view()[i].1.name,
            Err(_) => false,
        },
{
    let models = db.agents.read_all();
    let mut result: Vec<AgentDto> = Vec::new();
    let mut i: usize = 0;
    while i < models.len()
        invariant
            models@ == db.agents.seq_view(),
            i <= models@.len(),
            result@.len() == i,
            forall|j: int|
                0 <= j < i ==> (#[trigger] result@[j]).id == db.agents.seq_view()[j].0
                    && result@[j].name == db.agents.seq_view()[j].1.name,
        decreases models@.len() - i,
    {
        result.push(AgentDto { id: models[i].0, name: models[i].1.name.clone() });
        i = i + 1;
    }
    Ok(result)
}

} // verus!
