//! Payloads of the actions that tell the clients of a map that something was
//! deleted from it.
use uuid::Uuid;
use vstd::prelude::*;

verus! {

/// `uuid::Uuid`, carried through as it is.
#[verifier::external_type_specification]
#[verifier::external_body]
pub struct ExUuid(uuid::Uuid);

/// The payload of the action that tells of a deleted planting.
#[derive(Debug, Clone, Copy)]
pub struct DeletePlantActionPayload {
    user_id: Uuid,
    action_id: Uuid,
    id: Uuid,
}

impl DeletePlantActionPayload {
    /// The payload for the planting `id`, deleted by the user `user_id` in
    /// the action `action_id`.
    pub fn new(id: Uuid, user_id: Uuid, action_id: Uuid) -> (payload: Self)
        ensures
            payload.id() == id,
            payload.user_id() == user_id,
            payload.action_id() == action_id,
    {
        Self { user_id, action_id, id }
    }

    /// The user who deleted the planting.
    #[verifier::when_used_as_spec(spec_user_id)]
    pub fn user_id(&self) -> (user_id: Uuid)
        ensures
            user_id == self.user_id(),
    {
        self.user_id
    }

    /// The action in which the planting was deleted.
    #[verifier::when_used_as_spec(spec_action_id)]
    pub fn action_id(&self) -> (action_id: Uuid)
        ensures
            action_id == self.action_id(),
    {
        self.action_id
    }

    /// The planting that was deleted.
    #[verifier::when_used_as_spec(spec_id)]
    pub fn id(&self) -> (id: Uuid)
        ensures
            id == self.id(),
    {
        self.id
    }

    /// The user who made the deletion.
    pub closed spec fn spec_user_id(&self) -> Uuid {
        self.user_id
    }

    /// The action in which the deletion was made.
    pub closed spec fn spec_action_id(&self) -> Uuid {
        self.action_id
    }

    /// What was deleted.
    pub closed spec fn spec_id(&self) -> Uuid {
        self.id
    }
}

/// The payload of the action that tells of a deleted shading.
#[derive(Debug, Clone, Copy)]
pub struct DeleteShadingActionPayload {
    user_id: Uuid,
    action_id: Uuid,
    id: Uuid,
}

impl DeleteShadingActionPayload {
    /// The payload for the shading `id`, deleted by the user `user_id` in
    /// the action `action_id`.
    pub fn new(id: Uuid, user_id: Uuid, action_id: Uuid) -> (payload: Self)
        ensures
            payload.id() == id,
            payload.user_id() == user_id,
            payload.action_id() == action_id,
    {
        Self { user_id, action_id, id }
    }

    /// The user who deleted the shading.
    #[verifier::when_used_as_spec(spec_user_id)]
    pub fn user_id(&self) -> (user_id: Uuid)
        ensures
            user_id == self.user_id(),
    {
        self.user_id
    }

    /// The action in which the shading was deleted.
    #[verifier::when_used_as_spec(spec_action_id)]
    pub fn action_id(&self) -> (action_id: Uuid)
        ensures
            action_id == self.action_id(),
    {
        self.action_id
    }

    /// The shading that was deleted.
    #[verifier::when_used_as_spec(spec_id)]
    pub fn id(&self) -> (id: Uuid)
        ensures
            id == self.id(),
    {
        self.id
    }

    /// The user who made the deletion.
    pub closed spec fn spec_user_id(&self) -> Uuid {
        self.user_id
    }

    /// The action in which the deletion was made.
    pub closed spec fn spec_action_id(&self) -> Uuid {
        self.action_id
    }

    /// What was deleted.
    pub closed spec fn spec_id(&self) -> Uuid {
        self.id
    }
}

/// The payload of the action that tells of a deleted base layer image.
#[derive(Debug, Clone, Copy)]
pub struct DeleteBaseLayerImageActionPayload {
    user_id: Uuid,
    action_id: Uuid,
    id: Uuid,
}

impl DeleteBaseLayerImageActionPayload {
    /// The payload for the image `id`, deleted by the user `user_id` in the
    /// action `action_id`.
    pub fn new(id: Uuid, user_id: Uuid, action_id: Uuid) -> (payload: Self)
        ensures
            payload.id() == id,
            payload.user_id() == user_id,
            payload.action_id() == action_id,
    {
        Self { user_id, action_id, id }
    }

    /// The user who deleted the image.
    #[verifier::when_used_as_spec(spec_user_id)]
    pub fn user_id(&self) -> (user_id: Uuid)
        ensures
            user_id == self.user_id(),
    {
        self.user_id
    }

    /// The action in which the image was deleted.
    #[verifier::when_used_as_spec(spec_action_id)]
    pub fn action_id(&self) -> (action_id: Uuid)
        ensures
            action_id == self.action_id(),
    {
        self.action_id
    }

    /// The image that was deleted.
    #[verifier::when_used_as_spec(spec_id)]
    pub fn id(&self) -> (id: Uuid)
        ensures
            id == self.id(),
    {
        self.id
    }

    /// The user who made the deletion.
    pub closed spec fn spec_user_id(&self) -> Uuid {
        self.user_id
    }

    /// The action in which the deletion was made.
    pub closed spec fn spec_action_id(&self) -> Uuid {
        self.action_id
    }

    /// What was deleted.
    pub closed spec fn spec_id(&self) -> Uuid {
        self.id
    }
}

} // verus!
