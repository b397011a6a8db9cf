use navetted::clipboard::{
    announced_types, ClipboardSync, GuestEvent, SyncAction, OFFERED_IMAGE_MIME_TYPES,
    OFFERED_MIME_TYPES,
};
use navetted::protocol::BlobDescriptor;

const MAX_CLIPBOARD_BYTES: usize = 1024 * 1024;

fn offer(mimes: &[&str]) -> GuestEvent {
    GuestEvent::SelectionOffered {
        mime_types: mimes.iter().map(|m| (*m).to_string()).collect(),
    }
}

#[test]
fn prefers_utf8_plain_text_over_other_spellings() {
    let mut sync = ClipboardSync::new(MAX_CLIPBOARD_BYTES);
    let action = sync.on_guest(offer(&["STRING", "text/plain", "text/plain;charset=utf-8"]));
    assert_eq!(
        action,
        SyncAction::AskGuestFor {
            mime: "text/plain;charset=utf-8".into()
        }
    );
}

#[test]
fn falls_back_through_the_x11_atoms() {
    let mut sync = ClipboardSync::new(MAX_CLIPBOARD_BYTES);
    assert_eq!(
        sync.on_guest(offer(&["TEXT", "STRING"])),
        SyncAction::AskGuestFor {
            mime: "STRING".into()
        }
    );
}

#[test]
fn asks_using_the_guests_own_spelling() {
    let mut sync = ClipboardSync::new(MAX_CLIPBOARD_BYTES);
    assert_eq!(
        sync.on_guest(offer(&["text/plain; charset=utf-8"])),
        SyncAction::AskGuestFor {
            mime: "text/plain; charset=utf-8".into()
        }
    );
}

#[test]
fn an_offer_with_no_supported_form_is_ignored() {
    let mut sync = ClipboardSync::new(MAX_CLIPBOARD_BYTES);
    assert_eq!(
        sync.on_guest(offer(&["application/pdf"])),
        SyncAction::Nothing
    );
}

#[test]
fn a_non_text_offer_disarms_a_transfer_still_in_flight_for_the_selection_it_replaced() {
    let mut sync = ClipboardSync::new(MAX_CLIPBOARD_BYTES);
    sync.on_guest(offer(&["text/plain"]));
    assert_eq!(
        sync.on_guest(offer(&["application/pdf"])),
        SyncAction::Nothing
    );
    assert_eq!(
        sync.on_guest(GuestEvent::TransferFromGuest {
            bytes: b"stale".to_vec()
        }),
        SyncAction::Nothing
    );
}

#[test]
fn guest_transfer_is_pushed_to_the_phone() {
    let mut sync = ClipboardSync::new(MAX_CLIPBOARD_BYTES);
    sync.on_guest(offer(&["text/plain"]));
    assert_eq!(
        sync.on_guest(GuestEvent::TransferFromGuest {
            bytes: b"hello".to_vec()
        }),
        SyncAction::PushToPhone {
            text: "hello".into()
        }
    );
}

#[test]
fn invalid_utf8_from_the_guest_is_dropped() {
    let mut sync = ClipboardSync::new(MAX_CLIPBOARD_BYTES);
    sync.on_guest(offer(&["text/plain"]));
    assert_eq!(
        sync.on_guest(GuestEvent::TransferFromGuest {
            bytes: vec![0xff, 0xfe, 0xfd]
        }),
        SyncAction::Nothing
    );
}

#[test]
fn an_empty_guest_transfer_is_dropped_and_does_not_become_phone_text() {
    let mut sync = ClipboardSync::new(MAX_CLIPBOARD_BYTES);
    sync.on_phone_clipboard("earlier".into());
    sync.on_guest(offer(&["text/plain"]));
    assert_eq!(
        sync.on_guest(GuestEvent::TransferFromGuest { bytes: Vec::new() }),
        SyncAction::Nothing
    );
    assert_eq!(
        sync.on_guest(GuestEvent::PasteRequested {
            mime: "text/plain".into()
        }),
        SyncAction::AnswerGuest {
            bytes: b"earlier".to_vec()
        },
        "an empty transfer must not overwrite phone_text with an empty value"
    );
}

#[test]
fn oversized_guest_transfer_is_dropped() {
    let mut sync = ClipboardSync::new(MAX_CLIPBOARD_BYTES);
    sync.on_guest(offer(&["text/plain"]));
    assert_eq!(
        sync.on_guest(GuestEvent::TransferFromGuest {
            bytes: vec![b'a'; MAX_CLIPBOARD_BYTES + 1]
        }),
        SyncAction::Nothing
    );
}

#[test]
fn phone_clipboard_is_offered_to_the_guest() {
    let mut sync = ClipboardSync::new(MAX_CLIPBOARD_BYTES);
    assert_eq!(
        sync.on_phone_clipboard("hello".into()),
        SyncAction::OfferToGuest {
            mime_types: OFFERED_MIME_TYPES
                .iter()
                .map(|m| (*m).to_string())
                .collect()
        }
    );
}

#[test]
fn a_paste_is_answered_with_the_phones_text() {
    let mut sync = ClipboardSync::new(MAX_CLIPBOARD_BYTES);
    sync.on_phone_clipboard("hello".into());
    assert_eq!(
        sync.on_guest(GuestEvent::PasteRequested {
            mime: "text/plain".into()
        }),
        SyncAction::AnswerGuest {
            bytes: b"hello".to_vec()
        }
    );
}

#[test]
fn a_paste_with_no_phone_text_is_still_answered() {
    let mut sync = ClipboardSync::new(MAX_CLIPBOARD_BYTES);
    assert_eq!(
        sync.on_guest(GuestEvent::PasteRequested {
            mime: "text/plain".into()
        }),
        SyncAction::AnswerGuest { bytes: Vec::new() }
    );
}

#[test]
fn our_own_value_coming_back_from_the_guest_is_suppressed() {
    let mut sync = ClipboardSync::new(MAX_CLIPBOARD_BYTES);
    sync.on_phone_clipboard("hello".into());
    sync.on_guest(offer(&["text/plain"]));
    assert_eq!(
        sync.on_guest(GuestEvent::TransferFromGuest {
            bytes: b"hello".to_vec()
        }),
        SyncAction::Nothing,
        "the value we just sent to the guest must not bounce back"
    );
}

#[test]
fn our_own_value_coming_back_from_the_phone_is_suppressed() {
    let mut sync = ClipboardSync::new(MAX_CLIPBOARD_BYTES);
    sync.on_guest(offer(&["text/plain"]));
    sync.on_guest(GuestEvent::TransferFromGuest {
        bytes: b"hello".to_vec(),
    });
    assert_eq!(
        sync.on_phone_clipboard("hello".into()),
        SyncAction::Nothing,
        "the value we just pushed to the phone must not bounce back"
    );
}

#[test]
fn forgetting_an_unreceived_push_lets_the_next_genuine_phone_copy_through() {
    let mut sync = ClipboardSync::new(MAX_CLIPBOARD_BYTES);
    sync.on_guest(offer(&["text/plain"]));
    assert_eq!(
        sync.on_guest(GuestEvent::TransferFromGuest {
            bytes: b"hello".to_vec()
        }),
        SyncAction::PushToPhone {
            text: "hello".into()
        }
    );
    sync.forget_phone_echo();

    assert_eq!(
        sync.on_phone_clipboard("hello".into()),
        SyncAction::OfferToGuest {
            mime_types: OFFERED_MIME_TYPES
                .iter()
                .map(|m| (*m).to_string())
                .collect()
        },
        "a genuine phone copy must not be mistaken for the echo of a push nobody received"
    );
}

#[test]
fn the_echo_token_is_one_shot() {
    let mut sync = ClipboardSync::new(MAX_CLIPBOARD_BYTES);

    sync.on_phone_clipboard("hello".into());
    sync.on_guest(offer(&["text/plain"]));
    assert_eq!(
        sync.on_guest(GuestEvent::TransferFromGuest {
            bytes: b"hello".to_vec()
        }),
        SyncAction::Nothing
    );

    sync.on_guest(offer(&["text/plain"]));
    assert_eq!(
        sync.on_guest(GuestEvent::TransferFromGuest {
            bytes: b"hello".to_vec()
        }),
        SyncAction::PushToPhone {
            text: "hello".into()
        },
        "suppression is one-shot; the same text copied again must propagate"
    );
}

#[test]
fn phone_echo_token_is_also_one_shot() {
    let mut sync = ClipboardSync::new(MAX_CLIPBOARD_BYTES);
    sync.on_guest(offer(&["text/plain"]));
    sync.on_guest(GuestEvent::TransferFromGuest {
        bytes: b"hello".to_vec(),
    });
    assert_eq!(sync.on_phone_clipboard("hello".into()), SyncAction::Nothing);
    assert_eq!(
        sync.on_phone_clipboard("hello".into()),
        SyncAction::OfferToGuest {
            mime_types: OFFERED_MIME_TYPES
                .iter()
                .map(|m| (*m).to_string())
                .collect()
        },
        "the second genuine copy of the same text must propagate"
    );
}

#[test]
fn a_transfer_with_no_outstanding_request_is_dropped() {
    let mut sync = ClipboardSync::new(MAX_CLIPBOARD_BYTES);
    assert_eq!(
        sync.on_guest(GuestEvent::TransferFromGuest {
            bytes: b"hello".to_vec()
        }),
        SyncAction::Nothing
    );
}

#[test]
fn a_re_offer_supersedes_the_previous_request() {
    let mut sync = ClipboardSync::new(MAX_CLIPBOARD_BYTES);
    sync.on_guest(offer(&["text/plain"]));
    sync.on_guest(offer(&["text/plain"]));
    assert_eq!(
        sync.on_guest(GuestEvent::TransferFromGuest {
            bytes: b"second".to_vec()
        }),
        SyncAction::PushToPhone {
            text: "second".into()
        }
    );
    assert_eq!(
        sync.on_guest(GuestEvent::TransferFromGuest {
            bytes: b"stale".to_vec()
        }),
        SyncAction::Nothing
    );
}

#[test]
fn a_paste_after_a_guest_push_answers_with_the_pushed_text_not_a_stale_value() {
    let mut sync = ClipboardSync::new(MAX_CLIPBOARD_BYTES);
    sync.on_phone_clipboard("foo".into());
    sync.on_guest(offer(&["text/plain"]));
    assert_eq!(
        sync.on_guest(GuestEvent::TransferFromGuest {
            bytes: b"bar".to_vec()
        }),
        SyncAction::PushToPhone { text: "bar".into() }
    );
    assert_eq!(
        sync.on_guest(GuestEvent::PasteRequested {
            mime: "text/plain".into()
        }),
        SyncAction::AnswerGuest {
            bytes: b"bar".to_vec()
        },
        "phone_text must reflect the value just pushed to the phone, not the earlier one"
    );
}

fn blob() -> BlobDescriptor {
    BlobDescriptor {
        id: "0123456789abcdef0123456789abcdef".into(),
        mime: "image/png".into(),
        size: 42,
    }
}

#[test]
fn text_is_preferred_when_a_guest_offers_text_and_an_image() {
    let mut sync = ClipboardSync::new(MAX_CLIPBOARD_BYTES);
    assert_eq!(
        sync.on_guest(offer(&["image/png", "text/plain"])),
        SyncAction::AskGuestFor {
            mime: "text/plain".into()
        }
    );
}

#[test]
fn a_guest_image_transfer_is_pushed_as_a_descriptor_and_echoes_once() {
    let mut sync = ClipboardSync::new(MAX_CLIPBOARD_BYTES);
    assert_eq!(
        sync.on_guest(offer(&["image/png"])),
        SyncAction::AskGuestFor {
            mime: "image/png".into()
        }
    );
    assert_eq!(
        sync.on_guest(GuestEvent::TransferBlobFromGuest { blob: blob(), valid: true }),
        SyncAction::PushBlobToPhone { blob: blob() }
    );
    assert_eq!(sync.on_phone_blob(blob(), true), SyncAction::Nothing);
    assert_eq!(
        sync.on_phone_blob(blob(), true),
        SyncAction::OfferToGuest {
            mime_types: vec!["image/png".into()]
        }
    );
}

#[test]
fn superseding_a_blob_records_it_for_bridge_reclamation() {
    let mut sync = ClipboardSync::new(MAX_CLIPBOARD_BYTES);
    assert!(matches!(
        sync.on_phone_blob(blob(), true),
        SyncAction::OfferToGuest { .. }
    ));
    sync.on_phone_clipboard("new text".into());

    assert_eq!(sync.take_retired_blobs(), vec![blob()]);
    assert!(
        sync.take_retired_blobs().is_empty(),
        "retired blobs are drained once"
    );
}

#[test]
fn a_blob_paste_never_claims_bytes_when_the_bridge_cannot_find_the_blob() {
    let mut sync = ClipboardSync::new(MAX_CLIPBOARD_BYTES);
    sync.on_phone_blob(blob(), true);
    assert_eq!(
        sync.on_guest(GuestEvent::PasteRequested {
            mime: "image/png".into()
        }),
        SyncAction::AnswerGuestBlob { blob: blob() },
        "the bridge turns a missing descriptor into an empty pipe transfer"
    );
    assert_eq!(
        sync.on_guest(GuestEvent::PasteRequested {
            mime: "text/plain".into()
        }),
        SyncAction::AnswerGuest { bytes: Vec::new() },
    );
}

#[test]
fn an_invalid_blob_is_never_passed_on() {
    let mut sync = ClipboardSync::new(MAX_CLIPBOARD_BYTES);
    assert_eq!(sync.on_phone_blob(blob(), false), SyncAction::Nothing);
    sync.on_guest(offer(&["image/png"]));
    assert_eq!(
        sync.on_guest(GuestEvent::TransferBlobFromGuest { blob: blob(), valid: false }),
        SyncAction::Nothing
    );
}

#[test]
fn a_failed_image_transfer_ends_the_request() {
    let mut sync = ClipboardSync::new(MAX_CLIPBOARD_BYTES);
    sync.on_guest(offer(&["image/webp", "image/jpeg"]));
    assert_eq!(sync.pending_guest_blob_mime(), Some("image/jpeg".to_string()));
    assert_eq!(sync.on_guest(GuestEvent::TransferBlobFailed), SyncAction::Nothing);
    assert_eq!(sync.pending_guest_blob_mime(), None);
    assert_eq!(
        sync.on_guest(GuestEvent::TransferBlobFromGuest { blob: blob(), valid: true }),
        SyncAction::Nothing
    );
}

#[test]
fn mime_types_are_compared_without_case_and_white_space() {
    let mut sync = ClipboardSync::new(MAX_CLIPBOARD_BYTES);
    assert_eq!(
        sync.on_guest(offer(&["Text/PLAIN ; Charset = UTF-8"])),
        SyncAction::AskGuestFor { mime: "Text/PLAIN ; Charset = UTF-8".into() }
    );
    assert_eq!(sync.on_guest(offer(&["text/pl\u{00c4}in"])), SyncAction::Nothing);
}

#[test]
fn a_text_of_exactly_the_limit_is_pushed() {
    let mut sync = ClipboardSync::new(4);
    sync.on_guest(offer(&["text/plain"]));
    assert_eq!(
        sync.on_guest(GuestEvent::TransferFromGuest { bytes: b"four".to_vec() }),
        SyncAction::PushToPhone { text: "four".into() }
    );
    sync.on_guest(offer(&["text/plain"]));
    assert_eq!(
        sync.on_guest(GuestEvent::TransferFromGuest { bytes: b"five!".to_vec() }),
        SyncAction::Nothing
    );
}

#[test]
fn only_a_lone_image_type_is_announced_under_every_image_type() {
    let list = |types: &[&str]| types.iter().map(|t| (*t).to_string()).collect::<Vec<_>>();
    assert_eq!(announced_types(list(&["image/webp"])), OFFERED_IMAGE_MIME_TYPES);
    assert_eq!(announced_types(list(&OFFERED_MIME_TYPES)), OFFERED_MIME_TYPES);
    assert_eq!(announced_types(list(&["image/gif"])), ["image/gif"]);
    assert!(announced_types(Vec::new()).is_empty());
}
